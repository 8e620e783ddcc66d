use marina::{
    ast::{Expr, Program, Stmt},
    bytecode::{Chunk, FunctionTable, OpCode, Value},
    compiler::Compiler,
    document::{apply_change, position_to_offset_utf16, utf16_units},
    lexer::Lexer,
    parser::Parser,
    text::leading_numeric_text,
    vm::{Action, Arithmetic, Reply, Request, RuntimeError, VM},
};

fn reply_to(request: Request) -> Reply {
    match request {
        Request::Arithmetic { op, left, right } => {
            let a = f64::from_bits(left);
            let b = f64::from_bits(right);
            let result = match op {
                Arithmetic::Add => a + b,
                Arithmetic::Subtract => a - b,
                Arithmetic::Multiply => a * b,
                Arithmetic::Divide => a / b,
                Arithmetic::Modulo => a % b,
                Arithmetic::Power => a.powf(b),
            };
            Reply::Number(result.to_bits())
        }
        Request::Format(numbers) => {
            Reply::Texts(numbers.iter().map(|n| format!("{}", f64::from_bits(*n))).collect())
        }
        Request::ParseNumber(text) => Reply::Number(text.parse::<f64>().unwrap_or(0.0).to_bits()),
        Request::ReadKey => Reply::Key(65),
        Request::ReadLine(_) => Reply::Line(None),
    }
}

fn compiled(source: &str) -> (Chunk, FunctionTable) {
    let mut lexer = Lexer::new(source.to_string());
    let tokens = lexer.scan_tokens().expect("scans");
    let mut parser = Parser::new(tokens);
    let program = parser.parse().expect("parses");
    Compiler::new().compile(program).ok().expect("compiles")
}

/// Runs a chunk to its end or its error, and gives the machine as it then is.
fn machine_after(chunk: &Chunk, functions: FunctionTable) -> (VM, String, Result<(), RuntimeError>) {
    let mut vm = VM::new();
    vm.start(functions);
    let mut out = String::new();
    let mut reply = Reply::Nothing;
    loop {
        match vm.run(chunk, reply, 1_000) {
            Err(e) => return (vm, out, Err(e)),
            Ok(Action::Finished) => return (vm, out, Ok(())),
            Ok(Action::Need(request)) => reply = reply_to(request),
            Ok(Action::Output(text)) => {
                out.push_str(&text);
                reply = Reply::Nothing;
            }
            Ok(Action::Continue) => reply = Reply::Nothing,
        }
    }
}

fn number(n: f64) -> Value {
    Value::Number(n.to_bits())
}

fn array_123() -> Value {
    Value::Array(vec![number(10.0), number(20.0), number(30.0)])
}

/// A chunk that pushes the given constants and then executes `opcode`.
fn chunk_with(values: Vec<Value>, opcode: OpCode) -> Chunk {
    let mut chunk = Chunk::new();
    for value in values {
        let index = chunk.add_constant(value);
        chunk.write(OpCode::Push, Some(index));
    }
    chunk.write(opcode, None);
    chunk.write(OpCode::Halt, None);
    chunk
}

#[test]
fn reading_below_zero_is_an_error() {
    let chunk = chunk_with(vec![array_123(), number(-1.0)], OpCode::GetIndex);
    let (vm, _, end) = machine_after(&chunk, FunctionTable::new());
    assert!(matches!(end, Err(RuntimeError::IndexBelowZero)));
    assert_eq!(end.err().map(|e| e.message()), Some("Index below zero out of bounds".to_string()));
    assert_eq!(vm.stack_depth(), 2);
    assert_eq!(vm.address(), 2);

    let chunk = chunk_with(vec![array_123(), number(-0.5)], OpCode::GetIndex);
    assert!(matches!(machine_after(&chunk, FunctionTable::new()).2, Err(RuntimeError::IndexBelowZero)));
    let chunk = chunk_with(vec![array_123(), number(f64::NAN)], OpCode::GetIndex);
    assert!(matches!(machine_after(&chunk, FunctionTable::new()).2, Err(RuntimeError::IndexBelowZero)));
    let chunk = chunk_with(vec![array_123(), number(f64::NEG_INFINITY)], OpCode::GetIndex);
    assert!(matches!(machine_after(&chunk, FunctionTable::new()).2, Err(RuntimeError::IndexBelowZero)));
    let chunk = chunk_with(vec![Value::String("abc".to_string()), number(-1.0)], OpCode::GetIndex);
    assert!(matches!(machine_after(&chunk, FunctionTable::new()).2, Err(RuntimeError::IndexBelowZero)));
}

#[test]
fn writing_below_zero_is_an_error() {
    let two = Value::Array(vec![number(1.0), number(2.0)]);
    let chunk = chunk_with(vec![two, number(-1.0), number(99.0)], OpCode::SetIndex);
    let (vm, _, end) = machine_after(&chunk, FunctionTable::new());
    assert!(matches!(end, Err(RuntimeError::IndexBelowZero)));
    assert_eq!(vm.stack_depth(), 3);
    assert_eq!(vm.address(), 3);
}

#[test]
fn negative_indexes_fail_in_a_program() {
    let (chunk, functions) = compiled("LOCAL a := {10, 20, 30}\n? a[-1]\n? \"after\"");
    let (_, out, end) = machine_after(&chunk, functions);
    assert!(matches!(end, Err(RuntimeError::IndexBelowZero)));
    assert_eq!(out, "");
    let (chunk, functions) = compiled("LOCAL a := {1, 2}\na[-1] := 5\n? a");
    let (vm, out, end) = machine_after(&chunk, functions);
    assert!(matches!(end, Err(RuntimeError::IndexBelowZero)));
    assert_eq!(out, "");
    let kept = vm.local(0).expect("the array is there");
    assert!(kept.equals(&Value::Array(vec![number(1.0), number(2.0)])));
}

#[test]
fn zero_with_a_sign_and_fractions_are_indexes() {
    let chunk = chunk_with(vec![array_123(), number(-0.0)], OpCode::GetIndex);
    let (vm, _, end) = machine_after(&chunk, FunctionTable::new());
    assert!(end.is_ok());
    assert_eq!(vm.stack_depth(), 1);
    let (chunk, functions) = compiled("LOCAL a := {10, 20, 30}\n? a[1.5]\n? a[2]");
    assert_eq!(machine_after(&chunk, functions).1, "20\n30\n");
}

#[test]
fn an_index_at_the_length_changes_nothing() {
    let three = Value::Array(vec![number(1.0), number(2.0), number(3.0)]);
    let chunk = chunk_with(vec![three, number(3.0), number(99.0)], OpCode::SetIndex);
    let (vm, _, end) = machine_after(&chunk, FunctionTable::new());
    assert!(matches!(end, Err(RuntimeError::IndexOutOfBounds(3))));
    assert_eq!(end.err().map(|e| e.message()), Some("Index 3 out of bounds".to_string()));
    assert_eq!(vm.stack_depth(), 3);
    assert_eq!(vm.address(), 3);

    let chunk = chunk_with(vec![array_123(), number(3.0)], OpCode::GetIndex);
    let (vm, _, end) = machine_after(&chunk, FunctionTable::new());
    assert!(matches!(end, Err(RuntimeError::IndexOutOfBounds(3))));
    assert_eq!(vm.stack_depth(), 2);
    let chunk = chunk_with(vec![Value::String("abc".to_string()), number(3.0)], OpCode::GetIndex);
    let end = machine_after(&chunk, FunctionTable::new()).2;
    assert!(matches!(end, Err(RuntimeError::IndexOutOfBounds(3))));
}

#[test]
fn a_for_leaves_the_stack_as_it_was() {
    for source in [
        "FOR i := 1 TO 0\nNEXT",
        "FOR i := 1 TO 3\nNEXT",
        "FOR i := 1 TO 10 STEP 3\nOutStd(i)\nNEXT",
        "FOR i := 1 TO 3\nFOR j := 1 TO 2\nOutStd(j)\nNEXT\nNEXT",
        "FOR i := 1 TO 5\nIF i > 2\nEXIT\nENDIF\nNEXT",
    ] {
        let (chunk, functions) = compiled(source);
        let (vm, _, end) = machine_after(&chunk, functions);
        assert!(end.is_ok(), "{source}");
        assert_eq!(vm.stack_depth(), 0, "{source}");
    }
    let (chunk, _) = compiled("FOR i := 1 TO 0\nNEXT");
    let opcodes: Vec<OpCode> = chunk.code.iter().map(|i| i.opcode).collect();
    let expected = vec![
        OpCode::Push,
        OpCode::SetLocal,
        OpCode::Pop,
        OpCode::GetLocal,
        OpCode::Push,
        OpCode::LessEqual,
        OpCode::JumpIfFalse,
        OpCode::GetLocal,
        OpCode::Push,
        OpCode::Add,
        OpCode::SetLocal,
        OpCode::Pop,
        OpCode::Jump,
        OpCode::Halt,
    ];
    assert_eq!(opcodes, expected);
    assert_eq!(chunk.code[6].operand, Some(13));
    assert_eq!(chunk.code[12].operand, Some(3));
}

#[test]
fn every_statement_leaves_the_stack_as_it_was() {
    for source in [
        "LOCAL x := 1\nx := x + 1\n? x",
        "PUBLIC g := 2\ng := g * 2",
        "LOCAL a := {1, 2, 3}\na[0] := 99\n? a",
        "IF 5 > 3\n? \"Big\"\nELSE\n? \"Small\"\nENDIF",
        "LOCAL n := 0\nWHILE n < 3\nn := n + 1\nENDDO",
        "LOCAL n := 0\nLOOP\nn := n + 1\nIF n > 2\nEXIT\nENDIF\nENDLOOP",
        "CASE 2\nCASE 1\n?\"one\"\nCASE 2\n?\"two\"\nOTHERWISE\n?\"other\"\nENDCASE",
        "CASE 3\nCASE 1\n?\"one\"\nCASE 2\n?\"two\"\nENDCASE",
        "Len(\"abc\")\nOutStd(\"x\")",
    ] {
        let (chunk, functions) = compiled(source);
        let (vm, _, end) = machine_after(&chunk, functions);
        assert!(end.is_ok(), "{source}");
        assert_eq!(vm.stack_depth(), 0, "{source}");
    }
}

#[test]
fn a_case_without_labels_pops_its_value() {
    let bare = Program {
        statements: vec![Stmt::Case {
            expr: Expr::Number(1f64.to_bits()),
            cases: vec![],
            otherwise: None,
        }],
    };
    let (chunk, functions) = Compiler::new().compile(bare).ok().expect("compiles");
    let opcodes: Vec<OpCode> = chunk.code.iter().map(|i| i.opcode).collect();
    assert_eq!(opcodes, vec![OpCode::Push, OpCode::Pop, OpCode::Halt]);
    let (vm, out, end) = machine_after(&chunk, functions);
    assert!(end.is_ok());
    assert_eq!(out, "");
    assert_eq!(vm.stack_depth(), 0);

    let with_otherwise = Program {
        statements: vec![Stmt::Case {
            expr: Expr::Number(1f64.to_bits()),
            cases: vec![],
            otherwise: Some(vec![Stmt::Expression(Expr::Call {
                name: "?".to_string(),
                args: vec![Expr::String("other".to_string())],
            })]),
        }],
    };
    let (chunk, functions) = Compiler::new().compile(with_otherwise).ok().expect("compiles");
    let (vm, out, end) = machine_after(&chunk, functions);
    assert!(end.is_ok());
    assert_eq!(out, "other\n");
    assert_eq!(vm.stack_depth(), 0);
}

#[test]
fn database_statements_leave_the_stack_as_it_was() {
    let program = Program {
        statements: vec![
            Stmt::DbUse { filename: "people".to_string(), alias: None },
            Stmt::DbGoTop,
            Stmt::DbSkip(None),
            Stmt::DbSkip(Some(Expr::Number(2f64.to_bits()))),
            Stmt::DbSeek { key: Expr::String("k".to_string()) },
            Stmt::Replace { field: "name".to_string(), value: Expr::String("v".to_string()) },
            Stmt::DbGoBottom,
        ],
    };
    let (chunk, functions) = Compiler::new().compile(program).ok().expect("compiles");
    let (vm, out, end) = machine_after(&chunk, functions);
    assert!(end.is_ok());
    assert_eq!(out, "");
    assert_eq!(vm.stack_depth(), 0);
}

#[test]
fn a_division_by_zero_leaves_the_machine_as_it_was() {
    let (chunk, functions) = compiled("LOCAL x:=10\nx:=x/0\n? \"after\"");
    let (vm, out, end) = machine_after(&chunk, functions);
    assert!(matches!(end, Err(RuntimeError::DivisionByZero)));
    assert_eq!(end.err().map(|e| e.message()), Some("Division by zero".to_string()));
    assert_eq!(out, "");
    assert!(vm.local(0).expect("x is there").equals(&number(10.0)));
    assert_eq!(chunk.code[vm.address()].opcode, OpCode::Divide);
    assert_eq!(vm.stack_depth(), 2);
    assert!(!vm.is_finished());

    let chunk = chunk_with(vec![number(1.0), number(-0.0)], OpCode::Divide);
    let (vm, _, end) = machine_after(&chunk, FunctionTable::new());
    assert!(matches!(end, Err(RuntimeError::DivisionByZero)));
    assert_eq!(vm.stack_depth(), 2);
    assert_eq!(vm.address(), 2);
}

#[test]
fn a_type_mismatch_leaves_the_machine_as_it_was() {
    for opcode in
        [OpCode::Subtract, OpCode::Multiply, OpCode::Divide, OpCode::Modulo, OpCode::Power]
    {
        let chunk = chunk_with(vec![Value::String("a".to_string()), number(1.0)], opcode);
        let (vm, _, end) = machine_after(&chunk, FunctionTable::new());
        assert!(matches!(end, Err(RuntimeError::ExpectedNumber)));
        assert_eq!(vm.stack_depth(), 2);
        assert_eq!(vm.address(), 2);
    }
}

#[test]
fn a_bad_call_pushes_no_frame() {
    let mut chunk = Chunk::new();
    let name = chunk.add_constant(Value::String("len".to_string()));
    let argument = chunk.add_constant(Value::String("abc".to_string()));
    chunk.write(OpCode::Push, Some(name));
    chunk.write(OpCode::Push, Some(argument));
    chunk.write(OpCode::Call, Some(1));
    chunk.write(OpCode::Halt, None);
    let (vm, _, end) = machine_after(&chunk, FunctionTable::new());
    assert!(matches!(end, Err(RuntimeError::UnknownFunction(ref name)) if name == "len"));
    assert_eq!(vm.frames(), 0);
    assert_eq!(vm.locals_len(), 0);
    assert_eq!(vm.stack_depth(), 2);
    assert_eq!(vm.address(), 2);

    let mut chunk = Chunk::new();
    let target = chunk.add_constant(number(1.0));
    chunk.write(OpCode::Push, Some(target));
    chunk.write(OpCode::Call, Some(0));
    let (vm, _, end) = machine_after(&chunk, FunctionTable::new());
    assert!(matches!(end, Err(RuntimeError::NonStringCallTarget)));
    assert_eq!(vm.frames(), 0);
    assert_eq!(vm.stack_depth(), 1);
}

#[test]
fn an_underflow_pushes_nothing() {
    let mut chunk = Chunk::new();
    chunk.write(OpCode::Pop, None);
    let (vm, _, end) = machine_after(&chunk, FunctionTable::new());
    assert!(matches!(end, Err(RuntimeError::StackUnderflow)));
    assert_eq!(vm.stack_depth(), 0);
    assert_eq!(vm.address(), 0);
}

#[test]
fn val_reads_the_leading_number() {
    let cases = [
        ("Val(\"12abc\")", "12\n"),
        ("Val(\"  -3.5x\")", "-3.5\n"),
        ("Val(\"abc\")", "0\n"),
        ("Val(\"\")", "0\n"),
        ("Val(\"-\")", "0\n"),
        ("Val(\".\")", "0\n"),
        ("Val(\".5\")", "0.5\n"),
        ("Val(\"7.\")", "7\n"),
        ("Val(\"+4 5\")", "4\n"),
        ("Val(\"1e3\")", "1\n"),
        ("Val(\"inf\")", "0\n"),
        ("Val(\"42\")", "42\n"),
        ("Val(7)", "7\n"),
        ("Val(NIL)", "0\n"),
    ];
    for (call, expected) in cases {
        let (chunk, functions) = compiled(&format!("? {call}"));
        let (vm, out, end) = machine_after(&chunk, functions);
        assert!(end.is_ok(), "{call}");
        assert_eq!(out, expected, "{call}");
        assert_eq!(vm.stack_depth(), 0, "{call}");
    }
}

#[test]
fn val_asks_for_the_numeric_text_only() {
    let (chunk, functions) = compiled("Val(\" 12.5abc\")");
    let mut vm = VM::new();
    vm.start(functions);
    let first = vm.run(&chunk, Reply::Nothing, 100);
    match first {
        Ok(Action::Need(Request::ParseNumber(text))) => assert_eq!(text, "12.5"),
        _ => panic!("the machine asks for a number"),
    }
    let (chunk, functions) = compiled("Val(\"abc\")");
    let mut vm = VM::new();
    vm.start(functions);
    assert!(matches!(vm.run(&chunk, Reply::Nothing, 100), Ok(Action::Finished)));
}

#[test]
fn leading_numeric_text_is_cut() {
    assert_eq!(leading_numeric_text("12abc"), "12");
    assert_eq!(leading_numeric_text("\t -0.25 "), "-0.25");
    assert_eq!(leading_numeric_text("+7.x"), "+7.");
    assert_eq!(leading_numeric_text(".5."), ".5");
    assert_eq!(leading_numeric_text("1.2.3"), "1.2");
    assert_eq!(leading_numeric_text("--1"), "");
    assert_eq!(leading_numeric_text("- 1"), "");
    assert_eq!(leading_numeric_text("."), "");
    assert_eq!(leading_numeric_text("+."), "");
    assert_eq!(leading_numeric_text(""), "");
    assert_eq!(leading_numeric_text("x1"), "");
    assert_eq!(leading_numeric_text("١٢"), "");
}

#[test]
fn places_are_counted_in_utf16_units() {
    assert_eq!(utf16_units('a'), 1);
    assert_eq!(utf16_units('é'), 1);
    assert_eq!(utf16_units('\u{FFFF}'), 1);
    assert_eq!(utf16_units('\u{10000}'), 2);
    assert_eq!(utf16_units('😀'), 2);

    let text = "ab\ncd";
    assert_eq!(position_to_offset_utf16(text, 0, 0), 0);
    assert_eq!(position_to_offset_utf16(text, 0, 2), 2);
    assert_eq!(position_to_offset_utf16(text, 0, 10), 2);
    assert_eq!(position_to_offset_utf16(text, 1, 0), 3);
    assert_eq!(position_to_offset_utf16(text, 1, 1), 4);
    assert_eq!(position_to_offset_utf16(text, 1, 9), 5);
    assert_eq!(position_to_offset_utf16(text, 2, 0), 5);
    assert_eq!(position_to_offset_utf16("ab\n", 1, 0), 3);
    assert_eq!(position_to_offset_utf16("ab\n", 2, 0), 3);
    assert_eq!(position_to_offset_utf16("", 0, 0), 0);
    assert_eq!(position_to_offset_utf16("", 3, 3), 0);

    let wide = "a😀b";
    assert_eq!(position_to_offset_utf16(wide, 0, 1), 1);
    assert_eq!(position_to_offset_utf16(wide, 0, 2), 1);
    assert_eq!(position_to_offset_utf16(wide, 0, 3), 2);
    assert_eq!(position_to_offset_utf16(wide, 0, 4), 3);
}

#[test]
fn changes_replace_the_text_between_two_places() {
    assert_eq!(apply_change("hello world", None, "new"), "new");
    assert_eq!(apply_change("hello world", Some(((0, 6), (0, 11))), "there"), "hello there");
    assert_eq!(apply_change("hello world", Some(((0, 11), (0, 6))), "there"), "hello there");
    assert_eq!(apply_change("ab\ncd", Some(((0, 1), (1, 1))), "-"), "a-d");
    assert_eq!(apply_change("ab\ncd", Some(((1, 2), (1, 2))), "!"), "ab\ncd!");
    assert_eq!(apply_change("ab\ncd", Some(((5, 0), (9, 9))), "\nef"), "ab\ncd\nef");
    assert_eq!(apply_change("a😀b", Some(((0, 1), (0, 3))), "x"), "axb");
    assert_eq!(apply_change("abc", Some(((0, 0), (0, 3))), ""), "");
}

/// Runs a chunk step by step and gives what it wrote and the number of steps,
/// the step that ends the run counted.
fn steps_of(chunk: &Chunk, functions: FunctionTable) -> (String, usize) {
    let mut vm = VM::new();
    vm.start(functions);
    let mut out = String::new();
    let mut reply = Reply::Nothing;
    let mut steps = 0;
    loop {
        steps += 1;
        match vm.step(chunk, reply) {
            Err(e) => panic!("the run failed: {}", e.message()),
            Ok(Action::Finished) => {
                assert_eq!(vm.stack_depth(), 0);
                return (out, steps);
            }
            Ok(Action::Need(request)) => reply = reply_to(request),
            Ok(Action::Output(text)) => {
                out.push_str(&text);
                reply = Reply::Nothing;
            }
            Ok(Action::Continue) => reply = Reply::Nothing,
        }
    }
}

#[test]
fn a_counting_loop_runs_its_rounds() {
    let cases: [(u64, u64, u64); 8] =
        [(1, 3, 1), (2, 9, 3), (1, 0, 1), (5, 5, 2), (0, 10, 4), (7, 6, 1), (3, 100, 50), (0, 0, 9)];
    for (from, to, by) in cases {
        let rounds = if from > to { 0 } else { (to - from) / by + 1 };
        let mut expected = String::new();
        for k in 0..rounds {
            expected.push_str(&format!("{}\n", from + k * by));
        }
        let source = format!("FOR i := {from} TO {to} STEP {by}\n? i\nNEXT");
        let (chunk, functions) = compiled(&source);
        assert_eq!(chunk.code.len(), 18, "{source}");
        assert_eq!(chunk.code[6].operand, Some(17), "{source}");
        assert_eq!(chunk.code[16].operand, Some(3), "{source}");
        let (out, steps) = steps_of(&chunk, functions);
        assert_eq!(out, expected, "{source}");
        assert_eq!(steps as u64, 15 * rounds + 9, "{source}");
    }
}

#[test]
fn a_case_runs_one_body_and_pops_its_value() {
    let cases = [
        ("CASE 2\nCASE 1\n?\"one\"\nCASE 2\n?\"two\"\nOTHERWISE\n?\"other\"\nENDCASE", "two\n"),
        ("CASE 1\nCASE 1\n?\"one\"\nCASE 1\n?\"again\"\nENDCASE", "one\n"),
        ("CASE 3\nCASE 1\n?\"one\"\nCASE 2\n?\"two\"\nOTHERWISE\n?\"other\"\nENDCASE", "other\n"),
        ("CASE 3\nCASE 1\n?\"one\"\nCASE 2\n?\"two\"\nENDCASE", ""),
        ("CASE \"b\"\nCASE \"a\"\n?\"A\"\nCASE \"b\"\n?\"B\"\nENDCASE", "B\n"),
        ("CASE 1\nCASE \"1\"\n?\"text\"\nCASE TRUE\n?\"truth\"\nOTHERWISE\n?\"none\"\nENDCASE", "none\n"),
    ];
    for (source, expected) in cases {
        let (chunk, functions) = compiled(source);
        let (vm, out, end) = machine_after(&chunk, functions);
        assert!(end.is_ok(), "{source}");
        assert_eq!(out, expected, "{source}");
        assert_eq!(vm.stack_depth(), 0, "{source}");
    }
}

#[test]
fn a_counting_loop_counts_from_below_zero() {
    let cases: [(i64, i64, i64); 5] = [(-3, 4, 2), (-5, -1, 1), (-1, -5, 1), (-2, 0, 5), (0, -1, 1)];
    for (from, to, by) in cases {
        let rounds = if from > to { 0 } else { (to - from) / by + 1 };
        let mut expected = String::new();
        for k in 0..rounds {
            expected.push_str(&format!("{}\n", from + k * by));
        }
        let program = Program {
            statements: vec![Stmt::For {
                variable: "i".to_string(),
                start: Expr::Number((from as f64).to_bits()),
                end: Expr::Number((to as f64).to_bits()),
                step: Some(Expr::Number((by as f64).to_bits())),
                body: vec![Stmt::Expression(Expr::Call {
                    name: "?".to_string(),
                    args: vec![Expr::Variable("i".to_string())],
                })],
            }],
        };
        let (chunk, functions) = Compiler::new().compile(program).ok().expect("compiles");
        assert_eq!(chunk.code.len(), 18);
        let (out, steps) = steps_of(&chunk, functions);
        assert_eq!(out, expected, "{from} {to} {by}");
        assert_eq!(steps as i64, 15 * rounds + 9, "{from} {to} {by}");
    }
}

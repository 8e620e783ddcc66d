use marina::{
    ast::{Expr, Program, Stmt, VarScope},
    bytecode::{Chunk, FunctionTable, Instruction, OpCode, Value},
    compiler::{CompileError, Compiler},
    lexer::Lexer,
    parser::Parser,
    vm::{Action, Arithmetic, Reply, Request, RuntimeError, VM},
};

fn answer(request: Request) -> Reply {
    match request {
        Request::Arithmetic { op, left, right } => {
            let a = f64::from_bits(left);
            let b = f64::from_bits(right);
            let result = match op {
                Arithmetic::Add => a + b,
                Arithmetic::Subtract => a - b,
                Arithmetic::Multiply => a * b,
                Arithmetic::Divide => a / b,
                Arithmetic::Modulo => a % b,
                Arithmetic::Power => a.powf(b),
            };
            Reply::Number(result.to_bits())
        }
        Request::Format(numbers) => {
            Reply::Texts(numbers.iter().map(|n| format!("{}", f64::from_bits(*n))).collect())
        }
        Request::ParseNumber(text) => Reply::Number(text.parse::<f64>().unwrap_or(0.0).to_bits()),
        Request::ReadKey => Reply::Key(65),
        Request::ReadLine(_) => Reply::Line(Some("abcdefgh\r\n".to_string())),
    }
}

fn compile(source: &str) -> Result<(Chunk, FunctionTable), String> {
    let mut lexer = Lexer::new(source.to_string());
    let tokens = lexer.scan_tokens()?;
    let numbers: Vec<u64> =
        tokens.iter().map(|t| t.lexeme.parse::<f64>().unwrap_or(0.0).to_bits()).collect();
    let mut parser = Parser::with_numbers(tokens, numbers);
    let program = parser.parse()?;
    Compiler::new().compile(program).map_err(|e| e.message())
}

/// Runs a chunk and gives what it wrote and how it ended.
fn execute(chunk: &Chunk, functions: FunctionTable) -> (String, Result<(), RuntimeError>) {
    let mut vm = VM::new();
    vm.start(functions);
    let mut out = String::new();
    let mut reply = Reply::Nothing;
    loop {
        match vm.run(chunk, reply, 1_000) {
            Err(e) => return (out, Err(e)),
            Ok(Action::Finished) => return (out, Ok(())),
            Ok(Action::Need(request)) => reply = answer(request),
            Ok(Action::Output(text)) => {
                out.push_str(&text);
                reply = Reply::Nothing;
            }
            Ok(Action::Continue) => reply = Reply::Nothing,
        }
    }
}

fn output_of(source: &str) -> String {
    let (chunk, functions) = compile(source).expect("the source compiles");
    let (out, end) = execute(&chunk, functions);
    if let Err(e) = end {
        panic!("the run failed: {}", e.message());
    }
    out
}

fn failure_of(source: &str) -> (String, String) {
    let (chunk, functions) = compile(source).expect("the source compiles");
    let (out, end) = execute(&chunk, functions);
    match end {
        Ok(()) => panic!("the run did not fail"),
        Err(e) => (out, e.message()),
    }
}

#[test]
fn arithmetic_follows_doubles() {
    assert_eq!(output_of("? 10 / 2"), "5\n");
    assert_eq!(output_of("? 10 % 3"), "1\n");
    assert_eq!(output_of("? 2 ^ 3"), "8\n");
    assert_eq!(output_of("? 0.1 + 0.2"), "0.30000000000000004\n");
    assert_eq!(output_of("? 7 / 2"), "3.5\n");
    assert_eq!(output_of("? 3 - 5"), "-2\n");
    assert_eq!(output_of("? -(2 * 3)"), "-6\n");
}

#[test]
fn declaration_with_sum_runs() {
    let (chunk, functions) = compile("LOCAL x := 10 + 20\n? x").expect("compiles");
    let (out, end) = execute(&chunk, functions);
    assert!(end.is_ok());
    assert_eq!(out, "30\n");
}

#[test]
fn if_prints_its_branch() {
    assert_eq!(output_of("IF 5>3\n?\"Big\"\nENDIF"), "Big\n");
    assert_eq!(output_of("IF 5<3\n?\"Big\"\nELSE\n?\"Small\"\nENDIF"), "Small\n");
    assert_eq!(output_of("IF 5<3\n?\"Big\"\nENDIF"), "");
}

#[test]
fn for_counts_from_start_to_end() {
    assert_eq!(output_of("FOR i:=1 TO 3\n?i\nNEXT"), "1\n2\n3\n");
}

#[test]
fn for_runs_the_expected_number_of_rounds() {
    let cases: [(i32, i32, i32); 8] =
        [(1, 3, 1), (1, 10, 3), (5, 1, 1), (0, 0, 1), (-3, 4, 2), (2, 11, 4), (7, 7, 5), (1, 0, 2)];
    for (a, b, s) in cases {
        let source =
            format!("FOR i := {} TO {} STEP {}\nOutStd(\"x\")\nNEXT", a_text(a), a_text(b), s);
        let expected = std::cmp::max(0, (b - a).div_euclid(s) + 1) as usize;
        assert_eq!(output_of(&source), "x".repeat(expected), "{}", source);
    }
}

fn a_text(n: i32) -> String {
    if n < 0 {
        format!("(0 - {})", -n)
    } else {
        format!("{}", n)
    }
}

#[test]
fn indexed_assignment_changes_the_array() {
    assert_eq!(output_of("LOCAL arr:={1,2,3}\narr[0]:=99\n? arr"), "{99, 2, 3}\n");
}

#[test]
fn division_by_zero_stops_the_run() {
    let (out, message) = failure_of("LOCAL x:=10\n? \"before\"\nx:=x/0\n? \"after\"");
    assert_eq!(message, "Division by zero");
    assert_eq!(out, "before\n");
}

#[test]
fn case_runs_the_first_equal_label_only() {
    let source = "CASE 2\nCASE 1\n?\"one\"\nCASE 2\n?\"two\"\nOTHERWISE\n?\"other\"\nENDCASE";
    assert_eq!(output_of(source), "two\n");
    let twice = "CASE 2\nCASE 2\n?\"first\"\nCASE 2\n?\"second\"\nENDCASE";
    assert_eq!(output_of(twice), "first\n");
    let none = "CASE 9\nCASE 1\n?\"one\"\nOTHERWISE\n?\"other\"\nENDCASE";
    assert_eq!(output_of(none), "other\n");
    let nothing = "CASE 9\nCASE 1\n?\"one\"\nENDCASE\n? \"end\"";
    assert_eq!(output_of(nothing), "end\n");
}

#[test]
fn case_evaluates_its_value_once() {
    let source = "FUNCTION Pick()\nOutStd(\"p\")\nRETURN 2\nCASE Pick()\nCASE 1\n?\"one\"\nCASE 2\n?\"two\"\nENDCASE";
    // The function stands first; the statements after its RETURN belong to the top level.
    let out = output_of(source);
    assert_eq!(out, "ptwo\n");
}

#[test]
fn exit_leaves_the_innermost_loop_only() {
    let source = "LOCAL n := 0\nFOR i := 1 TO 3\nLOOP\nn := n + 1\nEXIT\nENDLOOP\nOutStd(i)\nNEXT\n? n";
    assert_eq!(output_of(source), "1233\n");
    let nested = "LOCAL i := 0\nWHILE i < 2\ni := i + 1\nLOCAL j := 0\nDO\nj := j + 1\nIF j > 1\nEXIT\nENDIF\nOutStd(j)\nWHILE TRUE\nOutStd(\"-\")\nENDDO";
    assert_eq!(output_of(nested), "1-1-");
}

#[test]
fn exit_outside_a_loop_does_not_compile() {
    let program = Program { statements: vec![Stmt::Exit] };
    assert_eq!(Compiler::new().compile(program).err(), Some(CompileError::ExitOutsideLoop));
    assert_eq!(compile("EXIT").err(), Some("EXIT statement outside of loop".to_string()));
    let inside_if = compile("IF TRUE\nEXIT\nENDIF");
    assert_eq!(inside_if.err(), Some("EXIT statement outside of loop".to_string()));
}

#[test]
fn malformed_indexed_assignment_does_not_compile() {
    let call = Expr::Call { name: "__SET_INDEX__".to_string(), args: vec![Expr::Nil] };
    let program = Program { statements: vec![Stmt::Expression(call)] };
    let error = Compiler::new().compile(program).err();
    assert_eq!(error, Some(CompileError::MalformedIndexAssignment));
    assert_eq!(
        CompileError::MalformedIndexAssignment.message(),
        "Internal error: __SET_INDEX__ requires 3 args"
    );
}

#[test]
fn indexes_count_from_zero_and_stay_in_range() {
    assert_eq!(output_of("LOCAL a := {10, 20, 30}\n? a[0]\n? a[2]"), "10\n30\n");
    assert_eq!(failure_of("LOCAL a := {10, 20, 30}\n? a[3]").1, "Index 3 out of bounds");
    assert_eq!(failure_of("LOCAL a := {10, 20, 30}\na[3] := 1").1, "Index 3 out of bounds");
    assert_eq!(failure_of("LOCAL a := {}\na[0] := 1").1, "Index 0 out of bounds");
    assert_eq!(output_of("LOCAL s := \"abc\"\n? s[1]"), "b\n");
    assert_eq!(failure_of("LOCAL s := \"abc\"\n? s[3]").1, "Index 3 out of bounds");
    assert_eq!(failure_of("LOCAL n := 5\n? n[0]").1, "Cannot index non-array value");
    assert_eq!(output_of("LOCAL a := {1, 2}\na[1] := 7\n? Len(a)"), "2\n");
}

#[test]
fn compiling_twice_gives_the_same_chunk() {
    let source = "LOCAL x := 1\nFOR i := 1 TO 3\nIF i > 1\nEXIT\nENDIF\n? i, x\nNEXT\nFUNCTION F(a)\nRETURN a + 1";
    let (first, first_table) = compile(source).expect("compiles");
    let (second, second_table) = compile(source).expect("compiles");
    assert_eq!(first.code, second.code);
    assert_eq!(first.constants.len(), second.constants.len());
    for (a, b) in first.constants.iter().zip(second.constants.iter()) {
        assert!(a.equals(b));
    }
    assert_eq!(first_table.len(), second_table.len());
    assert_eq!(first_table.get("F"), second_table.get("F"));
}

#[test]
fn declaration_emits_the_expected_code() {
    let program = Program {
        statements: vec![Stmt::VarDecl {
            name: "x".to_string(),
            initializer: Some(Expr::Number(42f64.to_bits())),
            scope: VarScope::Local,
        }],
    };
    let (chunk, _) = Compiler::new().compile(program).ok().expect("compiles");
    let expected = vec![
        Instruction::new(OpCode::Push, Some(0)),
        Instruction::new(OpCode::SetLocal, Some(0)),
        Instruction::new(OpCode::Pop, None),
        Instruction::new(OpCode::Halt, None),
    ];
    assert_eq!(chunk.code, expected);
    assert!(chunk.constants[0].equals(&Value::Number(42f64.to_bits())));
}

#[test]
fn while_loop_jumps_are_patched() {
    let (chunk, _) = compile("WHILE x < 1\nEXIT\nENDDO").expect("compiles");
    let expected = vec![
        Instruction::new(OpCode::GetGlobal, Some(0)),
        Instruction::new(OpCode::Push, Some(0)),
        Instruction::new(OpCode::Less, None),
        Instruction::new(OpCode::JumpIfFalse, Some(6)),
        Instruction::new(OpCode::Jump, Some(6)),
        Instruction::new(OpCode::Jump, Some(0)),
        Instruction::new(OpCode::Halt, None),
    ];
    assert_eq!(chunk.code, expected);
}

#[test]
fn functions_are_called_with_their_arguments() {
    let source = "FUNCTION Add(a, b)\nRETURN a + b\n? Add(2, 3)\n? Add(\"x\", \"y\")";
    assert_eq!(output_of(source), "5\nxy\n");
}

#[test]
fn main_runs_after_the_top_level() {
    let source = "PUBLIC g := 7\n? \"top\"\nPROCEDURE Main()\n? \"main\", g\nRETURN";
    assert_eq!(output_of(source), "top\nmain 7\n");
    let lower = "? \"top\"\nPROCEDURE main()\n? \"main\"\nRETURN";
    assert_eq!(output_of(lower), "top\nmain\n");
}

#[test]
fn print_forms_differ_in_the_line_break() {
    assert_eq!(output_of("? \"a\", \"b\"\n? \"c\"\nprint(\"d\")"), "a b\nc\nd\n");
    let text = |t: &str| Expr::String(t.to_string());
    let call = Expr::Call { name: "??".to_string(), args: vec![text("a"), text("b")] };
    let program = Program { statements: vec![Stmt::Expression(call)] };
    let (chunk, functions) = Compiler::new().compile(program).ok().expect("compiles");
    let (out, end) = execute(&chunk, functions);
    assert!(end.is_ok());
    assert_eq!(out, "a b");
    assert_eq!(output_of("? TRUE, FALSE, NIL"), "TRUE FALSE NIL\n");
    assert_eq!(output_of("? {1, \"two\", {3.5}}"), "{1, two, {3.5}}\n");
}

#[test]
fn add_joins_strings_and_numbers() {
    assert_eq!(output_of("? \"a\" + \"b\""), "ab\n");
    assert_eq!(output_of("? \"n=\" + 30"), "n=30\n");
    assert_eq!(output_of("? 2.5 + \"x\""), "2.5x\n");
    assert_eq!(failure_of("? TRUE + 1").1, "Cannot add these types");
    assert_eq!(failure_of("? \"a\" - 1").1, "Expected number");
}

#[test]
fn equality_is_exact_in_kind() {
    assert_eq!(output_of("? 1 == 1, 1 == \"1\", NIL == NIL, \"a\" != \"b\""), "TRUE FALSE TRUE TRUE\n");
    assert_eq!(output_of("? {1, 2} == {1, 2}, {1, 2} == {1, 3}"), "TRUE FALSE\n");
    assert_eq!(output_of("? 1 < 2, 2 <= 2, 3 > 4, 4 >= 5"), "TRUE TRUE FALSE FALSE\n");
    assert_eq!(output_of("? NOT TRUE, TRUE AND 1, 0 OR \"\""), "FALSE TRUE FALSE\n");
}

#[test]
fn undefined_variables_fail_at_run_time() {
    assert_eq!(failure_of("? y").1, "Global variable 0 not defined");
    assert_eq!(failure_of("Nope(1)").1, "Unknown function: Nope");
}

#[test]
fn builtins_work_on_strings() {
    assert_eq!(output_of("? Replicate(\"ab\", 3)"), "ababab\n");
    assert_eq!(output_of("? Replicate(7, 2)"), "77\n");
    assert_eq!(output_of("? \"[\" + Space(3) + \"]\""), "[   ]\n");
    assert_eq!(output_of("? Len(\"hello\"), Len({1, 2, 3})"), "5 3\n");
    assert_eq!(output_of("? SubStr(\"abcdef\", 2, 3)"), "bcd\n");
    assert_eq!(output_of("? SubStr(\"abcdef\", 0, 2), SubStr(\"abc\", 3, 9), SubStr(\"abc\", 9, 1)"), "ab c \n");
    assert_eq!(output_of("? \"[\" + Trim(\"  a b  \") + \"]\""), "[a b]\n");
    assert_eq!(output_of("? \"[\" + AllTrim(\"\ta \") + \"]\""), "[a]\n");
    assert_eq!(output_of("? \"[\" + LTrim(\"  a  \") + \"]\""), "[a  ]\n");
    assert_eq!(output_of("? \"[\" + RTrim(\"  a  \") + \"]\""), "[  a]\n");
    assert_eq!(output_of("? Chr(65), Asc(\"A\"), Asc(\"\")"), "A 65 0\n");
    assert_eq!(output_of("? Val(\" 3.5 \"), Val(\"x\"), Val(4), Val(NIL)"), "3.5 0 4 0\n");
    assert_eq!(output_of("? Inkey(), Inkey(5)"), "65 65\n");
    assert_eq!(output_of("? \"[\" + GetInput(\"12345\") + \"]\""), "[abcde]\n");
    assert_eq!(output_of("? \"[\" + GetInput(\"1234567890\") + \"]\""), "[abcdefgh  ]\n");
}

#[test]
fn builtins_check_their_arguments() {
    assert_eq!(failure_of("Len(1, 2)").1, "Len requires 1 argument (string)");
    assert_eq!(failure_of("Len(5)").1, "Len requires a string or array");
    assert_eq!(failure_of("SetPos(1)").1, "SetPos requires 2 arguments (row, col)");
    assert_eq!(failure_of("SetPos(\"a\", 1)").1, "Expected number");
    assert_eq!(failure_of("Replicate(TRUE, 1)").1, "Replicate requires a string or number");
    assert_eq!(failure_of("AllTrim(1)").1, "Trim requires a string");
    assert_eq!(failure_of("GetInput()").1, "GetInput requires 1-5 arguments");
    assert_eq!(failure_of("Inkey(1, 2)").1, "Inkey requires 0 or 1 argument (optional timeout)");
}

#[test]
fn cursor_builtins_write_escape_sequences() {
    assert_eq!(output_of("SetPos(2, 5)"), "\x1B[3;6H");
    assert_eq!(output_of("GotoXY(5, 2)"), "\x1B[3;6H");
    assert_eq!(output_of("ClearScreen()"), "\x1B[2J\x1B[H");
    assert_eq!(output_of("SavePos()\nRestorePos()"), "\x1B[s\x1B[u");
    assert_eq!(output_of("OutStd(\"a\")\nOutStd(1.5)\nOutStd(TRUE)\nOutStd(NIL)"), "a1.5TRUENIL");
    let (chunk, functions) = compile("SetPos(4, 9)\nSavePos()\nGetInput(\"ab\")").expect("compiles");
    let mut vm = VM::new();
    vm.start(functions);
    let mut reply = Reply::Nothing;
    let mut asked = None;
    loop {
        match vm.run(&chunk, reply, 100).ok().expect("runs") {
            Action::Finished => break,
            Action::Need(Request::ReadLine(show)) => {
                asked = Some(show);
                reply = Reply::Line(None);
            }
            _ => reply = Reply::Nothing,
        }
    }
    assert_eq!(asked, Some("ab\x1B[2D".to_string()));
}

#[test]
fn a_request_leaves_the_machine_unchanged() {
    let (chunk, functions) = compile("? 1 + 2").expect("compiles");
    let mut vm = VM::new();
    vm.start(functions);
    assert!(matches!(vm.step(&chunk, Reply::Nothing), Ok(Action::Continue)));
    assert!(matches!(vm.step(&chunk, Reply::Nothing), Ok(Action::Continue)));
    for _ in 0..3 {
        match vm.step(&chunk, Reply::Nothing) {
            Ok(Action::Need(Request::Arithmetic { op, left, right })) => {
                assert_eq!(op, Arithmetic::Add);
                assert_eq!(f64::from_bits(left), 1.0);
                assert_eq!(f64::from_bits(right), 2.0);
            }
            other => panic!("unexpected step: {:?}", other),
        }
    }
    assert!(matches!(vm.step(&chunk, Reply::Texts(vec![])), Err(RuntimeError::UnexpectedReply)));
    assert!(matches!(vm.step(&chunk, Reply::Number(3f64.to_bits())), Ok(Action::Continue)));
    match vm.step(&chunk, Reply::Nothing) {
        Ok(Action::Output(text)) => assert_eq!(text, "3"),
        other => panic!("unexpected step: {:?}", other),
    }
    assert!(!vm.is_finished());
}

#[test]
fn hand_made_chunks_fail_cleanly() {
    let mut chunk = Chunk::new();
    chunk.write(OpCode::Pop, None);
    let (_, end) = execute(&chunk, FunctionTable::new());
    assert_eq!(end.err().map(|e| e.message()), Some("Stack underflow".to_string()));

    let mut chunk = Chunk::new();
    chunk.write(OpCode::Push, None);
    let (_, end) = execute(&chunk, FunctionTable::new());
    assert_eq!(end.err().map(|e| e.message()), Some("PUSH requires constant index".to_string()));

    let mut chunk = Chunk::new();
    chunk.write(OpCode::Push, Some(3));
    let (_, end) = execute(&chunk, FunctionTable::new());
    assert_eq!(end.err().map(|e| e.message()), Some("Constant 3 not found".to_string()));

    let mut chunk = Chunk::new();
    chunk.write(OpCode::GetLocal, Some(2));
    let (_, end) = execute(&chunk, FunctionTable::new());
    assert_eq!(end.err().map(|e| e.message()), Some("Local variable 2 not found".to_string()));

    let mut chunk = Chunk::new();
    let index = chunk.add_constant(Value::Number(1f64.to_bits()));
    chunk.write(OpCode::Push, Some(index));
    chunk.write(OpCode::Call, Some(0));
    let (_, end) = execute(&chunk, FunctionTable::new());
    assert_eq!(end.err().map(|e| e.message()), Some("Function name must be a string".to_string()));

    let mut chunk = Chunk::new();
    chunk.write(OpCode::DbGoTop, None);
    chunk.write(OpCode::Return, None);
    chunk.write(OpCode::Pop, None);
    let (out, end) = execute(&chunk, FunctionTable::new());
    assert!(end.is_ok());
    assert_eq!(out, "");
}

#[test]
fn case_labels_are_tested_in_order() {
    let source = "CASE 2\nCASE 1\n?\"one\"\nCASE 2\n?\"two\"\nOTHERWISE\n?\"other\"\nENDCASE";
    let (chunk, _) = compile(source).expect("compiles");
    let expected = vec![
        Instruction::new(OpCode::Push, Some(0)),
        Instruction::new(OpCode::Dup, None),
        Instruction::new(OpCode::Push, Some(1)),
        Instruction::new(OpCode::Equal, None),
        Instruction::new(OpCode::JumpIfFalse, Some(11)),
        Instruction::new(OpCode::Pop, None),
        Instruction::new(OpCode::Push, Some(2)),
        Instruction::new(OpCode::Print, None),
        Instruction::new(OpCode::Push, Some(3)),
        Instruction::new(OpCode::Print, None),
        Instruction::new(OpCode::Jump, Some(26)),
        Instruction::new(OpCode::Dup, None),
        Instruction::new(OpCode::Push, Some(4)),
        Instruction::new(OpCode::Equal, None),
        Instruction::new(OpCode::JumpIfFalse, Some(21)),
        Instruction::new(OpCode::Pop, None),
        Instruction::new(OpCode::Push, Some(5)),
        Instruction::new(OpCode::Print, None),
        Instruction::new(OpCode::Push, Some(6)),
        Instruction::new(OpCode::Print, None),
        Instruction::new(OpCode::Jump, Some(26)),
        Instruction::new(OpCode::Pop, None),
        Instruction::new(OpCode::Push, Some(7)),
        Instruction::new(OpCode::Print, None),
        Instruction::new(OpCode::Push, Some(8)),
        Instruction::new(OpCode::Print, None),
        Instruction::new(OpCode::Halt, None),
    ];
    assert_eq!(chunk.code, expected);
    assert!(chunk.constants[1].equals(&Value::Number(1f64.to_bits())));
    assert!(chunk.constants[4].equals(&Value::Number(2f64.to_bits())));
}

#[test]
fn exits_jump_past_their_own_loop() {
    let (chunk, _) = compile("LOOP\nLOOP\nEXIT\nENDLOOP\nEXIT\nENDLOOP").expect("compiles");
    let expected = vec![
        Instruction::new(OpCode::Jump, Some(2)),
        Instruction::new(OpCode::Jump, Some(0)),
        Instruction::new(OpCode::Jump, Some(4)),
        Instruction::new(OpCode::Jump, Some(0)),
        Instruction::new(OpCode::Halt, None),
    ];
    assert_eq!(chunk.code, expected);
}

use marina::{
    ast::{Expr, Program, Stmt},
    bytecode::{Chunk, FunctionTable, Instruction, OpCode, Value},
    diagnostics::{Diagnostic, Severity, Span},
    formatter::{
        first_token_upper, format_source, uppercase_keywords_outside_strings, FormatOptions,
    },
    lexer::{keyword, Lexer},
    parser::{extract_line_col, extract_number_after, find, span_from_message_or_token, Parser},
    text::{
        char_text, chars_of, located_message, push_decimal, repeat, same_text, slice_text, spells,
        string_of, trim, trim_end, trim_start,
    },
    token::{Token, TokenType},
};

fn tokens_of(source: &str) -> Vec<Token> {
    Lexer::new(source.to_string()).scan_tokens().expect("the source lexes")
}

fn kinds_of(source: &str) -> Vec<TokenType> {
    tokens_of(source).iter().map(|t| t.token_type).collect()
}

#[test]
fn lexer_reports_positions() {
    let tokens = tokens_of("LOCAL x\n  y := \"a\nb\" z");
    let places: Vec<(usize, usize)> = tokens.iter().map(|t| (t.line, t.column)).collect();
    assert_eq!(places, vec![(1, 1), (1, 7), (2, 3), (2, 5), (2, 8), (3, 4), (3, 5)]);
    assert_eq!(tokens[4].lexeme, "a\nb");
    assert_eq!(tokens[6].token_type, TokenType::Eof);
    assert_eq!(tokens[6].lexeme, "");
}

#[test]
fn lexer_reads_operators_of_two_characters() {
    assert_eq!(
        kinds_of("++ -- += -= *= /= -> := == != <> <= >= < > = : . ; ?"),
        vec![
            TokenType::Increment,
            TokenType::Decrement,
            TokenType::PlusAssign,
            TokenType::MinusAssign,
            TokenType::MultiplyAssign,
            TokenType::DivideAssign,
            TokenType::Arrow,
            TokenType::Assign,
            TokenType::Equal,
            TokenType::NotEqual,
            TokenType::NotEqual,
            TokenType::LessEqual,
            TokenType::GreaterEqual,
            TokenType::Less,
            TokenType::Greater,
            TokenType::Assign,
            TokenType::Colon,
            TokenType::Dot,
            TokenType::Semicolon,
            TokenType::QuestionMark,
            TokenType::Eof
        ]
    );
    assert_eq!(tokens_of(":=")[0].lexeme, ":");
    assert_eq!(kinds_of("a_1 _b Été"), vec![TokenType::Identifier, TokenType::Identifier, TokenType::Identifier, TokenType::Eof]);
    assert_eq!(kinds_of("local Local LOCAL nil And"), vec![TokenType::Local, TokenType::Local, TokenType::Local, TokenType::Nil, TokenType::And, TokenType::Eof]);
    assert_eq!(kinds_of("1.5.2 7."), vec![TokenType::Number, TokenType::Dot, TokenType::Number, TokenType::Number, TokenType::Dot, TokenType::Eof]);
    assert_eq!(kinds_of("'it' \"x\""), vec![TokenType::String, TokenType::String, TokenType::Eof]);
    assert_eq!(kinds_of("a // b\n/* c\n */ d /* e"), vec![TokenType::Identifier, TokenType::Identifier, TokenType::Eof]);
    assert_eq!(kinds_of(""), vec![TokenType::Eof]);
    assert_eq!(kinds_of(" \t\r\n\n"), vec![TokenType::Eof]);
}

#[test]
fn lexer_reports_errors() {
    let error = |source: &str| Lexer::new(source.to_string()).scan_tokens().err();
    assert_eq!(error("x := #"), Some("Unexpected character '#' at line 1, column 6".to_string()));
    assert_eq!(error("a\n !b"), Some("Unexpected character '!' at line 2, column 2".to_string()));
    assert_eq!(error("a \"bc"), Some("Unterminated string at line 1, column 3".to_string()));
    assert_eq!(error("\n\n  'x"), Some("Unterminated string at line 3, column 3".to_string()));
}

#[test]
fn lexer_scans_once() {
    let mut lexer = Lexer::new("a b".to_string());
    assert_eq!(lexer.scan_tokens().map(|t| t.len()), Ok(3));
    assert_eq!(lexer.scan_tokens().map(|t| t.len()), Ok(1));
}

#[test]
fn keywords_are_found_in_upper_case() {
    let word = |w: &str| keyword(&w.chars().collect());
    assert_eq!(word("ENDCASE"), Some(TokenType::EndCase));
    assert_eq!(word("DBGOBOTTOM"), Some(TokenType::DbGoBottom));
    assert_eq!(word("endcase"), None);
    assert_eq!(word("ENDLOOP"), None);
    assert_eq!(word(""), None);
}

#[test]
fn token_and_diagnostic_constructors_keep_their_parts() {
    let token = Token::new(TokenType::Identifier, "abc".to_string(), 3, 4);
    assert_eq!(token.token_type, TokenType::Identifier);
    assert_eq!(token.lexeme, "abc");
    assert_eq!((token.line, token.column), (3, 4));
    let copy = token.clone();
    assert_eq!(copy.lexeme, "abc");

    let span = Span::new(0, 0, 0);
    assert_eq!(span, Span { line: 1, column: 1, len: 1 });
    assert_eq!(Span::new(7, 8, 9), Span { line: 7, column: 8, len: 9 });
    let error = Diagnostic::error("bad".to_string(), span);
    assert_eq!(error.severity, Severity::Error);
    assert_eq!(error.message, "bad");
    assert_eq!(error.span, span);
    let warning = Diagnostic::warning("hm".to_string(), Span::new(2, 3, 4));
    assert_eq!(warning.severity, Severity::Warning);
    assert_eq!(warning.clone(), warning);
}

#[test]
fn spans_come_from_the_message_or_the_token() {
    let token = Token::new(TokenType::Identifier, "name".to_string(), 4, 9);
    assert_eq!(
        span_from_message_or_token("Expected x at line 4, column 9", &token),
        Span { line: 4, column: 9, len: 4 }
    );
    assert_eq!(
        span_from_message_or_token("Expected x at line 2, column 5", &token),
        Span { line: 2, column: 5, len: 1 }
    );
    assert_eq!(
        span_from_message_or_token("Invalid number", &token),
        Span { line: 4, column: 9, len: 4 }
    );
    assert_eq!(
        span_from_message_or_token("oops at line 0, column 0", &token),
        Span { line: 1, column: 1, len: 1 }
    );
    let eof = Token::new(TokenType::Eof, String::new(), 1, 1);
    assert_eq!(span_from_message_or_token("x at line 1", &eof), Span { line: 1, column: 1, len: 1 });
    assert_eq!(extract_line_col("a at line 12, column 34"), Some((12, 34)));
    assert_eq!(extract_line_col("a at line 12"), Some((12, 1)));
    assert_eq!(extract_line_col("column 3"), None);
    assert_eq!(extract_number_after("at line x", "at line "), None);
    assert_eq!(extract_number_after("n=4294967295!", "n="), Some(4294967295));
    assert_eq!(extract_number_after("n=4294967296!", "n="), None);
    assert_eq!(extract_number_after("n=007", "n="), Some(7));
    assert_eq!(extract_number_after("ab ab12", "ab"), None);
    let hay: Vec<char> = "abcabd".chars().collect();
    assert_eq!(find(&hay, &"abd".chars().collect()), Some(3));
    assert_eq!(find(&hay, &"ab".chars().collect()), Some(0));
    assert_eq!(find(&hay, &"".chars().collect()), Some(0));
    assert_eq!(find(&hay, &"abe".chars().collect()), None);
    assert_eq!(find(&hay, &"abcabdx".chars().collect()), None);
}

fn parse(source: &str) -> Result<Program, String> {
    let mut parser = Parser::new(tokens_of(source));
    assert!(parser.ready());
    parser.parse()
}

#[test]
fn parser_reports_errors_with_places() {
    let error = |source: &str| parse(source).err().expect("the source does not parse");
    assert_eq!(error("LOCAL"), "Expected variable name at line 1, column 6");
    assert_eq!(error("FOR i := 1\n? i\nNEXT"), "Expected TO in FOR loop at line 2, column 1");
    assert_eq!(error("x[1"), "Expected ']' after index at line 1, column 4");
    assert_eq!(error("DO\n? 1"), "Expected WHILE after DO block at line 2, column 4");
    assert_eq!(error("IF x\n? 1"), "Unterminated IF at line 1, column 1");
    assert_eq!(error("? 1\n  WHILE x\n? 1"), "Unterminated WHILE at line 2, column 3");
    assert_eq!(error("1 := 2"), "Invalid assignment target");
    assert_eq!(error("1 += 2"), "Invalid augmented assignment target");
    assert_eq!(error("1++"), "Invalid increment/decrement target");
    assert_eq!(error("1(2)"), "Invalid function call");
    assert_eq!(error("x := 1.2345678901234567890123"), "Invalid number");
    assert_eq!(
        error(")"),
        "Unexpected token: Token { token_type: RightParen, lexeme: \")\", line: 1, column: 1 }"
    );
}

#[test]
fn parser_takes_number_values() {
    let tokens = tokens_of("x := 1.5 + 2");
    let numbers: Vec<u64> =
        tokens.iter().map(|t| t.lexeme.parse::<f64>().unwrap_or(0.0).to_bits()).collect();
    let program = Parser::with_numbers(tokens, numbers).parse().expect("parses");
    match &program.statements[0] {
        Stmt::Expression(Expr::Assign { value, .. }) => match value.as_ref() {
            Expr::Binary { left, right, .. } => {
                assert_eq!(left.as_ref(), &Expr::Number(1.5f64.to_bits()));
                assert_eq!(right.as_ref(), &Expr::Number(2f64.to_bits()));
            }
            other => panic!("unexpected value: {:?}", other),
        },
        other => panic!("unexpected statement: {:?}", other),
    }
    let without_end = Parser::new(vec![Token::new(TokenType::Nil, "NIL".to_string(), 1, 1)]);
    assert!(!without_end.ready());
    assert!(!Parser::new(Vec::new()).ready());
}

#[test]
fn parser_builds_the_expected_trees() {
    let program = parse("x := 1 + 2 * 3 ^ 2 < 4 AND NOT y OR z").expect("parses");
    let text = format!("{:?}", program.statements[0]);
    assert!(text.starts_with("Expression(Assign { name: \"x\", value: Binary { left: Binary { left: Binary { left: Binary { left: Number("), "{}", text);
    let program = parse("a[1] := 2\nb += 1\nc--\nUSE \"f\" ALIAS g\nDBSKIP 2\nDBGOTOP\nREPLACE n WITH 1").expect("parses");
    assert_eq!(program.statements.len(), 7);
    assert!(matches!(&program.statements[0], Stmt::Expression(Expr::Call { name, args }) if name == "__SET_INDEX__" && args.len() == 3));
    assert!(matches!(&program.statements[3], Stmt::DbUse { filename, alias: Some(a) } if filename == "f" && a == "g"));
    assert!(matches!(&program.statements[4], Stmt::DbSkip(Some(_))));
    assert!(matches!(&program.statements[5], Stmt::DbGoTop));
    assert!(matches!(&program.statements[6], Stmt::Replace { field, .. } if field == "n"));
    let program = parse("FUNCTION F(a, b)\nLOCAL c := a\nRETURN c\nPROCEDURE P()\nRETURN").expect("parses");
    assert!(matches!(&program.statements[0], Stmt::Function { name, params, body, is_procedure: false } if name == "F" && params.len() == 2 && body.len() == 2));
    assert!(matches!(&program.statements[1], Stmt::Function { name, body, is_procedure: true, .. } if name == "P" && matches!(body[0], Stmt::Return(None))));
}

#[test]
fn parser_recovers_after_errors() {
    let mut parser = Parser::new(tokens_of("LOCAL := 1 ; x := 2\nELSE\n? 3"));
    let result = parser.parse_with_diagnostics();
    assert_eq!(result.program.statements.len(), 2);
    assert_eq!(result.diagnostics.len(), 2);
    assert_eq!(result.diagnostics[0].message, "Expected variable name at line 1, column 7");
    assert_eq!(result.diagnostics[0].span, Span { line: 1, column: 7, len: 1 });
    assert!(result.diagnostics[1].message.starts_with("Unexpected token: Token { token_type: Else"));
    assert_eq!(result.diagnostics[1].span, Span { line: 2, column: 1, len: 4 });
}

#[test]
fn values_are_written_out() {
    let none: Vec<String> = Vec::new();
    let number = |v: f64| Value::Number(v.to_bits());
    assert_eq!(number(30.0).to_string(&none), "30");
    assert_eq!(number(-2.0).to_string(&none), "-2");
    assert_eq!(Value::String("hi".to_string()).to_string(&none), "hi");
    assert_eq!(Value::Boolean(true).to_string(&none), "TRUE");
    assert_eq!(Value::Boolean(false).to_string(&none), "FALSE");
    assert_eq!(Value::Nil.to_string(&none), "NIL");
    assert_eq!(Value::Array(vec![]).to_string(&none), "{}");
    let array = Value::Array(vec![number(1.0), number(2.5), Value::Array(vec![number(0.25)]), Value::Nil]);
    assert_eq!(array.fractions(), vec![2.5f64.to_bits(), 0.25f64.to_bits()]);
    let texts = vec!["2.5".to_string(), "0.25".to_string()];
    assert_eq!(array.to_string(&texts), "{1, 2.5, {0.25}, NIL}");
    assert_eq!(array.to_string(&none), "{1, , {}, NIL}");
    let function = Value::Function { name: "F".to_string(), arity: 2, address: 7 };
    assert_eq!(function.to_string(&none), "<function F(2)>");
    let module = Value::ModuleFunction { module: "m".to_string(), function: "f".to_string() };
    assert_eq!(module.to_string(&none), "<module function m.f>");
    assert!(array.equals(&array.clone()));
    assert!(!array.equals(&function));
    assert!(function.equals(&function.duplicate()));
}

#[test]
fn truthiness_follows_the_kind() {
    assert!(!Value::Nil.is_truthy());
    assert!(Value::Boolean(true).is_truthy());
    assert!(!Value::Boolean(false).is_truthy());
    assert!(Value::Number(1f64.to_bits()).is_truthy());
    assert!(!Value::Number(0f64.to_bits()).is_truthy());
    assert!(!Value::Number((-0f64).to_bits()).is_truthy());
    assert!(Value::Number(f64::NAN.to_bits()).is_truthy());
    assert!(Value::String("a".to_string()).is_truthy());
    assert!(!Value::String(String::new()).is_truthy());
    assert!(Value::Array(vec![Value::Nil]).is_truthy());
    assert!(!Value::Array(vec![]).is_truthy());
    assert!(Value::Function { name: String::new(), arity: 0, address: 0 }.is_truthy());
}

#[test]
fn chunks_and_tables_grow() {
    let mut chunk = Chunk::new();
    assert_eq!(chunk.add_constant(Value::Nil), 0);
    assert_eq!(chunk.add_constant(Value::Boolean(true)), 1);
    chunk.write(OpCode::Push, Some(1));
    chunk.write(OpCode::Halt, None);
    assert_eq!(chunk.code, vec![Instruction::new(OpCode::Push, Some(1)), Instruction::new(OpCode::Halt, None)]);
    assert_eq!(Instruction::new(OpCode::Jump, Some(3)), Instruction { opcode: OpCode::Jump, operand: Some(3) });

    let mut table = FunctionTable::new();
    assert_eq!(table.get("f"), None);
    table.insert("f".to_string(), 3);
    table.insert("g".to_string(), 5);
    table.insert("f".to_string(), 9);
    assert_eq!(table.get("f"), Some(9));
    assert_eq!(table.get("g"), Some(5));
    assert!(table.contains_key("g"));
    assert!(!table.contains_key("G"));
    assert_eq!(table.len(), 3);
    assert_eq!(table.entry(1), (&"g".to_string(), 5));
    assert_eq!(Program::new().statements.len(), 0);
}

#[test]
fn text_helpers_agree_with_the_standard_library() {
    for s in ["", "a", "  a b \t", "\u{a0}x\u{2003}", "\n\n", "héllo wörld  "] {
        assert_eq!(trim(s), s.trim());
        assert_eq!(trim_start(s), s.trim_start());
        assert_eq!(trim_end(s), s.trim_end());
        assert_eq!(string_of(&chars_of(s)), s);
    }
    assert_eq!(repeat("ab", 3), "ababab");
    assert_eq!(repeat("ab", 0), "");
    assert_eq!(char_text('x'), "x");
    assert_eq!(slice_text(&"hello".chars().collect(), 1, 3), "el");
    assert!(same_text("a", "a"));
    assert!(!same_text("a", "A"));
    assert!(spells(&"IF".chars().collect(), "IF"));
    assert!(!spells(&"IF".chars().collect(), "IFF"));
    let mut out = String::from("n=");
    push_decimal(&mut out, 0);
    push_decimal(&mut out, 18446744073709551615);
    assert_eq!(out, "n=018446744073709551615");
    assert_eq!(located_message("Oops", 12, 3), "Oops at line 12, column 3");
}

#[test]
fn formatter_keeps_line_ends_and_comments() {
    let options = FormatOptions::default();
    assert_eq!(options.indent_size, 4);
    assert_eq!(format_source("", options), "");
    assert_eq!(format_source("a\r\nb\rc", options), "a\nb\nc");
    assert_eq!(format_source("  x  // note  \n", options), "x // note  \n");
    assert_eq!(format_source("if a\n// c\n  ? \"//\" // d\nendif", options), "if a\n    // c\n    ? \"//\" // d\nendif");
    let two = FormatOptions { indent_size: 2 };
    assert_eq!(
        format_source("while x\nfor i := 1 to 2\nloop\nexit\nendloop\nnext\nenddo\n", two),
        "while x\n  for i := 1 to 2\n    loop\n      exit\n    endloop\n  next\nenddo\n"
    );
    assert_eq!(
        format_source("procedure P()\nif a\nreturn\nendif\nreturn\nx\n", two),
        "procedure P()\n  if a\n    return\n  endif\nreturn\nx\n"
    );
    assert_eq!(format_source("endif\nelse\nx", two), "endif\nelse\n  x");
}

#[test]
fn first_words_and_keywords_are_found() {
    assert_eq!(first_token_upper("  endIf x"), Some("ENDIF".to_string()));
    assert_eq!(first_token_upper("?? x"), Some("??".to_string()));
    assert_eq!(first_token_upper("? x"), Some("?".to_string()));
    assert_eq!(first_token_upper("x1_y+2"), Some("X1_Y".to_string()));
    assert_eq!(first_token_upper("  "), None);
    assert_eq!(first_token_upper("+1"), None);
    assert_eq!(
        uppercase_keywords_outside_strings("if x and \"not or\" + nil_ok = nil  "),
        "IF x AND \"not or\" + nil_ok = NIL"
    );
    assert_eq!(uppercase_keywords_outside_strings("local s := \"a \\\" if\" if"), "LOCAL s := \"a \\\" if\" IF");
    assert_eq!(uppercase_keywords_outside_strings("endloop"), "ENDLOOP");
    assert_eq!(uppercase_keywords_outside_strings(""), "");
}

#[test]
fn chunks_are_listed() {
    let mut chunk = Chunk::new();
    let one = chunk.add_constant(Value::Number(1f64.to_bits()));
    let half = chunk.add_constant(Value::Array(vec![
        Value::Number(0.5f64.to_bits()),
        Value::String("x".to_string()),
    ]));
    chunk.write(OpCode::Push, Some(one));
    chunk.write(OpCode::Push, Some(half));
    chunk.write(OpCode::Push, Some(7));
    chunk.write(OpCode::Push, None);
    chunk.write(OpCode::SetLocal, Some(3));
    chunk.write(OpCode::JumpIfFalse, None);
    chunk.write(OpCode::Add, None);
    chunk.write(OpCode::Halt, None);
    assert_eq!(chunk.fractions(), vec![0.5f64.to_bits()]);
    let listing = chunk.disassemble("main", &vec!["0.5".to_string()]);
    let expected = "== main ==\n\
                    0000 PUSH           0 '1'\n\
                    0001 PUSH           1 '{0.5, x}'\n\
                    0002 PUSH           7\n\
                    0003 PUSH\n\
                    0004 SET_LOCAL      3\n\
                    0005 JUMP_IF_FALSE  0\n\
                    0006 ADD\n\
                    0007 HALT\n";
    assert_eq!(listing, expected);
    assert_eq!(Chunk::new().disassemble("", &Vec::new()), "==  ==\n");
}

#[test]
fn parsing_takes_the_whole_input() {
    let mut parser = Parser::new(tokens_of("x := 1\ny := 2.5"));
    let program = parser.parse().expect("parses");
    assert_eq!(program.statements.len(), 2);
    assert_eq!(parser.parse().map(|p| p.statements.len()), Ok(0));
    match &program.statements[1] {
        Stmt::Expression(Expr::Assign { value, .. }) => {
            assert_eq!(value.as_ref(), &Expr::Number(2.5f64.to_bits()));
        }
        other => panic!("unexpected statement: {:?}", other),
    }
}

#[test]
fn the_crate_root_names_the_main_types() {
    let mut lexer = marina::Lexer::new("? 1".to_string());
    let tokens = lexer.scan_tokens().expect("scans");
    let mut parser = marina::Parser::new(tokens);
    let program: marina::Program = parser.parse().expect("parses");
    let (chunk, _): (marina::Chunk, _) =
        marina::Compiler::new().compile(program).ok().expect("compiles");
    assert!(chunk.constants[0].equals(&marina::Value::Number(1f64.to_bits())));
    let (chunk, functions): (marina::Chunk, _) = (chunk, marina::bytecode::FunctionTable::new());
    let mut vm = marina::VM::new();
    assert!(vm.is_finished());
    vm.start(functions);
    assert!(!vm.is_finished());
    assert_eq!(chunk.code.len(), 5);
}

use minilang::ast::AstNode;
use minilang::builtins::{call_builtin, get_builtins, parse_integer_text, BuiltinError};
use minilang::env::Environment;
use minilang::evaluator::{evaluate, EvalError, MAX_ITERATIONS};
use minilang::interpreter::{run_program, InterpreterError};
use minilang::lexer::{tokenize, LexError, LexErrorKind, Lexer};
use minilang::object::{Builtin, Object};
use minilang::operators::{evaluate_number_infix_op, OperatorError};
use minilang::output::{add_output, clear_output, get_output, OutputBuffer};
use minilang::parser::{ParseError, Parser};
use minilang::token::Token;

fn run(src: &str) -> String {
    match run_program(src) {
        Ok(s) => s,
        Err(e) => panic!("{:?}", e),
    }
}

fn run_err(src: &str) -> InterpreterError {
    match run_program(src) {
        Ok(s) => panic!("expected an error, got {}", s),
        Err(e) => e,
    }
}

fn parse(src: &str) -> AstNode {
    let tokens = tokenize(src).unwrap();
    let mut parser = Parser::new(tokens);
    parser.parse_program().unwrap()
}

#[test]
fn lexer_round_trip_and_precedence() {
    let tokens = tokenize("1 + 2 * 3").unwrap();
    assert_eq!(
        tokens,
        vec![
            Token::Number(1),
            Token::Plus,
            Token::Number(2),
            Token::Multiply,
            Token::Number(3),
            Token::Eof
        ]
    );
    assert_eq!(run("1 + 2 * 3"), "7");
}

#[test]
fn subtraction_is_left_associative() {
    assert_eq!(run("10 - 3 - 2"), "5");
}

#[test]
fn block_variables_do_not_leak() {
    assert_eq!(run("let x = 1; { let x = 2; } print(x);"), "1");
}

#[test]
fn block_functions_leak() {
    assert_eq!(run("{ fn f() { return 1; } } print(f());"), "1");
}

#[test]
fn closures_capture_by_value() {
    assert_eq!(run("let x = 1; fn f() { return x; } let x = 2; f()"), "1");
}

#[test]
fn division_by_zero_is_an_error() {
    assert!(matches!(
        run_err("5 / 0"),
        InterpreterError::Eval(EvalError::Operator(OperatorError::DivisionByZero))
    ));
}

#[test]
fn modulo_by_zero_is_an_error() {
    assert!(matches!(
        run_err("5 % 0"),
        InterpreterError::Eval(EvalError::Operator(OperatorError::ModuloByZero))
    ));
}

#[test]
fn array_index_out_of_bounds() {
    assert!(matches!(
        run_err("[1,2,3][5]"),
        InterpreterError::Eval(EvalError::Operator(OperatorError::IndexOutOfBounds {
            index: 5,
            length: 3
        }))
    ));
    assert!(matches!(
        run_err("[1,2,3][-1]"),
        InterpreterError::Eval(EvalError::Operator(OperatorError::IndexOutOfBounds {
            index: -1,
            length: 3
        }))
    ));
}

#[test]
fn string_index_out_of_bounds() {
    assert!(matches!(
        run_err("\"ab\"[5]"),
        InterpreterError::Eval(EvalError::Operator(OperatorError::IndexOutOfBounds {
            index: 5,
            length: 2
        }))
    ));
    assert_eq!(run("\"héllo\"[1]"), "é");
}

#[test]
fn infinite_loop_stops_at_the_cap() {
    assert!(matches!(
        run_err("while (true) {}"),
        InterpreterError::Eval(EvalError::LoopLimit)
    ));
}

#[test]
fn loop_cap_is_exactly_ten_thousand_iterations() {
    let ast = parse("let i = 0; while (true) let i = i + 1;");
    let mut env = Environment::new();
    let mut out = OutputBuffer::new();
    let r = evaluate(&ast, &mut env, &mut out);
    assert!(matches!(r, Err(EvalError::LoopLimit)));
    let i = env.get(&"i".to_string()).unwrap();
    assert!(matches!(i, Object::Number(10000)));
    assert_eq!(MAX_ITERATIONS, 10000);
}

#[test]
fn push_leaves_the_original_array() {
    assert_eq!(run("let a = [1, 2]; let b = push(a, 3); print(a, b);"), "[1, 2] [1, 2, 3]");
    assert_eq!(run("push([1,2], 3)"), "[1, 2, 3]");
}

#[test]
fn tokens_of_every_kind() {
    let tokens = tokenize("let x = \"a\\n\" != 3; // note\n /* block */ x <= y && z || !w").unwrap();
    assert_eq!(
        tokens,
        vec![
            Token::Let,
            Token::Identifier("x".to_string()),
            Token::Assign,
            Token::String("a\n".to_string()),
            Token::NotEqual,
            Token::Number(3),
            Token::Semicolon,
            Token::Identifier("x".to_string()),
            Token::LessThanOrEqual,
            Token::Identifier("y".to_string()),
            Token::And,
            Token::Identifier("z".to_string()),
            Token::Or,
            Token::Not,
            Token::Identifier("w".to_string()),
            Token::Eof
        ]
    );
}

#[test]
fn keywords_and_booleans() {
    let tokens = tokenize("if else while for fn return break continue true false").unwrap();
    assert_eq!(
        tokens,
        vec![
            Token::If,
            Token::Else,
            Token::While,
            Token::For,
            Token::Fn,
            Token::Return,
            Token::Break,
            Token::Continue,
            Token::Boolean(true),
            Token::Boolean(false),
            Token::Eof
        ]
    );
}

#[test]
fn token_positions() {
    let tokens = Lexer::new("a\n  bc").tokenize().unwrap();
    assert_eq!(tokens[0].position.line, 1);
    assert_eq!(tokens[0].position.column, 1);
    assert_eq!(tokens[1].position.line, 2);
    assert_eq!(tokens[1].position.column, 3);
}

#[test]
fn lexer_errors() {
    assert_eq!(
        tokenize("1 /* open").unwrap_err(),
        LexError { kind: LexErrorKind::UnterminatedComment, line: 1, column: 3 }
    );
    assert_eq!(
        tokenize("\n\"abc").unwrap_err(),
        LexError { kind: LexErrorKind::UnterminatedString, line: 2, column: 1 }
    );
    assert_eq!(
        tokenize("\"a\\q\"").unwrap_err(),
        LexError { kind: LexErrorKind::InvalidEscape('q'), line: 1, column: 4 }
    );
    assert_eq!(
        tokenize("a & b").unwrap_err(),
        LexError { kind: LexErrorKind::LoneAmpersand, line: 1, column: 3 }
    );
    assert_eq!(
        tokenize("a | b").unwrap_err(),
        LexError { kind: LexErrorKind::LonePipe, line: 1, column: 3 }
    );
    assert_eq!(
        tokenize("  #").unwrap_err(),
        LexError { kind: LexErrorKind::UnexpectedChar('#'), line: 1, column: 3 }
    );
    assert_eq!(
        tokenize("1.5").unwrap_err(),
        LexError { kind: LexErrorKind::InvalidNumber, line: 1, column: 1 }
    );
    assert_eq!(
        tokenize("99999999999999999999").unwrap_err(),
        LexError { kind: LexErrorKind::InvalidNumber, line: 1, column: 1 }
    );
}

#[test]
fn whole_decimal_literals() {
    assert_eq!(tokenize("2.0").unwrap(), vec![Token::Number(2), Token::Eof]);
    assert_eq!(run("9223372036854775807"), "9223372036854775807");
}

#[test]
fn parse_errors() {
    let mut p = Parser::new(tokenize("let = 1").unwrap());
    assert!(matches!(p.parse_program(), Err(ParseError::Expected(_))));
    let mut p = Parser::new(tokenize("(1 + 2").unwrap());
    assert!(matches!(p.parse_program(), Err(ParseError::Expected(_))));
    let mut p = Parser::new(tokenize("1 +").unwrap());
    assert!(matches!(p.parse_program(), Err(ParseError::UnexpectedEnd)));
    let mut p = Parser::new(tokenize(")").unwrap());
    assert!(matches!(p.parse_program(), Err(ParseError::UnexpectedToken(Token::RightParen))));
}

#[test]
fn precedence_of_every_level() {
    assert_eq!(run("1 + 2 < 4 && 2 * 3 == 6 || false"), "true");
    assert_eq!(run("-2 * 3"), "-6");
    assert_eq!(run("!true == false"), "true");
    assert_eq!(run("(1 + 2) * 3"), "9");
    assert_eq!(run("[[1, 2], [3, 4]][1][0]"), "3");
    assert_eq!(run("7 / 2"), "3");
    assert_eq!(run("-7 / 2"), "-3");
    assert_eq!(run("-7 % 3"), "-1");
}

#[test]
fn arithmetic_overflow_is_an_error() {
    assert!(matches!(
        run_err("9223372036854775807 + 1"),
        InterpreterError::Eval(EvalError::Operator(OperatorError::ArithmeticOverflow))
    ));
    assert!(matches!(
        evaluate_number_infix_op(&Token::Divide, i64::MIN, -1),
        Err(OperatorError::ArithmeticOverflow)
    ));
}

#[test]
fn strings_and_comparisons() {
    assert_eq!(run("\"ab\" + \"cd\""), "abcd");
    assert_eq!(run("\"abc\" < \"abd\""), "true");
    assert_eq!(run("\"b\" >= \"abc\""), "true");
    assert_eq!(run("1 == \"1\""), "false");
    assert_eq!(run("[1, [2]] == [1, [2]]"), "true");
    assert_eq!(run("[1, 2] != [1, 3]"), "true");
}

#[test]
fn type_mismatch_is_an_error() {
    assert!(matches!(
        run_err("1 + \"a\""),
        InterpreterError::Eval(EvalError::Operator(OperatorError::TypeMismatch { .. }))
    ));
    assert!(matches!(
        run_err("-\"a\""),
        InterpreterError::Eval(EvalError::Operator(OperatorError::CannotNegate(_)))
    ));
}

#[test]
fn control_flow() {
    assert_eq!(run("if (1 > 2) 10 else 20"), "20");
    assert_eq!(run("for (let i = 0; i < 5; i + 1) { if (i == 0) { break; } }"), "");
    assert_eq!(run("for (let i = 0; i > 5; i + 1) { 1 }"), "");
    assert!(matches!(
        run_err("let i = 0; while (i < 3) { let i = i + 1; }"),
        InterpreterError::Eval(EvalError::LoopLimit)
    ));
    assert_eq!(run("let i = 0; while (i < 3) let i = i + 1; i"), "3");
    assert_eq!(run("fn f(x) { if (x > 0) { return 1; } return 2; } f(5)"), "1");
}

#[test]
fn for_loop_runs_increment_after_continue() {
    let ast = parse("for (let i = 0; i < 4; print(\"+\")) { continue; }");
    let mut env = Environment::new();
    let mut out = OutputBuffer::new();
    let r = evaluate(&ast, &mut env, &mut out);
    assert!(matches!(r, Err(EvalError::LoopLimit)));
    assert_eq!(get_output(&out).len(), 10000);
    assert!(env.get(&"i".to_string()).is_none());
}

#[test]
fn break_outside_loop_is_an_error() {
    assert!(matches!(run_err("break;"), InterpreterError::Eval(EvalError::BreakOutsideLoop)));
    assert!(matches!(
        run_err("continue;"),
        InterpreterError::Eval(EvalError::ContinueOutsideLoop)
    ));
}

#[test]
fn call_errors() {
    assert!(matches!(
        run_err("nothing(1)"),
        InterpreterError::Eval(EvalError::FunctionNotFound(_))
    ));
    assert!(matches!(
        run_err("let x = 1; x(2)"),
        InterpreterError::Eval(EvalError::NotAFunction(_))
    ));
    assert!(matches!(
        run_err("fn f(a) { return a; } f(1, 2)"),
        InterpreterError::Eval(EvalError::ArityMismatch { expected: 1, got: 2, .. })
    ));
    assert!(matches!(run_err("y"), InterpreterError::Eval(EvalError::IdentifierNotFound(_))));
    assert!(matches!(
        run_err("fn f(g) { return g(g); } f(f)"),
        InterpreterError::Eval(EvalError::CallDepthExceeded)
    ));
}

#[test]
fn display_of_values() {
    assert_eq!(run("[1, \"a\", true, [2]]"), "[1, \"a\", true, [2]]");
    assert_eq!(run("\"text\""), "text");
    assert_eq!(run("fn f(a, b) { return a; }"), "function(a, b)");
    assert_eq!(run("len"), "builtin function");
    assert_eq!(run("let x = 1;"), "");
    assert_eq!(run("println(\"a\"); print(\"b\", 2)"), "a\nb 2");
    assert_eq!(run("print(\"x  \")"), "x");
}

#[test]
fn builtins_on_arrays() {
    assert_eq!(run("len([1, 2, 3])"), "3");
    assert_eq!(run("len(\"héllo\")"), "5");
    assert_eq!(run("pop([1, 2, 3])"), "3");
    assert_eq!(run("first([4, 5])"), "4");
    assert_eq!(run("last([4, 5])"), "5");
    assert_eq!(run("first([])"), "");
    assert_eq!(run("rest([1, 2, 3])"), "[2, 3]");
    assert_eq!(run("rest([1])"), "[]");
    assert!(matches!(
        run_err("pop([])"),
        InterpreterError::Eval(EvalError::Builtin(BuiltinError::EmptyArray))
    ));
    assert!(matches!(
        run_err("len(1)"),
        InterpreterError::Eval(EvalError::Builtin(BuiltinError::NotSupported { .. }))
    ));
    assert!(matches!(
        run_err("len(1, 2)"),
        InterpreterError::Eval(EvalError::Builtin(BuiltinError::ArgumentCount { got: 2, .. }))
    ));
}

#[test]
fn builtins_on_numbers() {
    assert_eq!(run("abs(-4)"), "4");
    assert_eq!(run("sqrt(17)"), "4");
    assert_eq!(run("sqrt(9223372036854775807)"), "3037000499");
    assert_eq!(run("pow(2, 10)"), "1024");
    assert_eq!(run("pow(-2, 63)"), "-9223372036854775808");
    assert_eq!(run("pow(1, 9223372036854775807)"), "1");
    assert_eq!(run("pow(-1, 3)"), "-1");
    assert_eq!(run("floor(3) + ceil(4) + round(5)"), "12");
    assert_eq!(run("min(3, 1, 2)"), "1");
    assert_eq!(run("max(3, 1, 2)"), "3");
    assert!(matches!(
        run_err("sqrt(-1)"),
        InterpreterError::Eval(EvalError::Builtin(BuiltinError::NegativeSqrt))
    ));
    assert!(matches!(
        run_err("pow(2, 64)"),
        InterpreterError::Eval(EvalError::Builtin(BuiltinError::Overflow { .. }))
    ));
    assert!(matches!(
        run_err("pow(2, -1)"),
        InterpreterError::Eval(EvalError::Builtin(BuiltinError::NegativeExponent))
    ));
    assert!(matches!(
        run_err("min()"),
        InterpreterError::Eval(EvalError::Builtin(BuiltinError::ArgumentCount { got: 0, .. }))
    ));
    assert!(matches!(
        run_err("max(1, \"a\")"),
        InterpreterError::Eval(EvalError::Builtin(BuiltinError::NotSupported { .. }))
    ));
    assert!(matches!(
        run_err("abs(-9223372036854775807 - 1)"),
        InterpreterError::Eval(EvalError::Builtin(BuiltinError::Overflow { .. }))
    ));
}

#[test]
fn builtins_on_strings() {
    assert_eq!(run("substr(\"hello\", 1, 3)"), "ell");
    assert_eq!(run("substr(\"hello\", 3, 10)"), "lo");
    assert_eq!(run("substr(\"hello\", 9, 1)"), "");
    assert_eq!(run("substr(\"hello\", -2, 2)"), "he");
    assert_eq!(run("upper(\"abc\")"), "ABC");
    assert_eq!(run("lower(\"ABC\")"), "abc");
    assert_eq!(run("trim(\"  x y  \")"), "x y");
    assert_eq!(run("split(\"a,b,c\", \",\")"), "[\"a\", \"b\", \"c\"]");
    assert_eq!(run("join([1, \"b\", true], \"-\")"), "1-b-true");
    assert!(matches!(
        run_err("split(1, \",\")"),
        InterpreterError::Eval(EvalError::Builtin(BuiltinError::ArgumentTypes { .. }))
    ));
}

#[test]
fn builtins_on_types() {
    assert_eq!(run("type(1)"), "number");
    assert_eq!(run("type(\"a\")"), "string");
    assert_eq!(run("type([])"), "array");
    assert_eq!(run("type(true)"), "boolean");
    assert_eq!(run("type(len)"), "builtin");
    assert_eq!(run("to_string([1, \"a\"])"), "[1, \"a\"]");
    assert_eq!(run("to_number(\"-42\") + 1"), "-41");
    assert_eq!(run("to_number(true)"), "1");
    assert!(matches!(
        run_err("to_number(\"4x\")"),
        InterpreterError::Eval(EvalError::Builtin(BuiltinError::NotNumeric))
    ));
    assert_eq!(parse_integer_text("+7.00"), Some(7));
    assert_eq!(parse_integer_text("-"), None);
    assert_eq!(parse_integer_text("3.5"), None);
}

#[test]
fn user_code_shadows_builtins() {
    assert_eq!(run("fn len(x) { return 42; } len([1])"), "42");
}

#[test]
fn builtin_table_and_direct_calls() {
    let table = get_builtins();
    assert_eq!(table.len(), 25);
    let mut out = OutputBuffer::new();
    let args = vec![Object::Array(vec![Object::Number(1), Object::Number(2)]), Object::Number(3)];
    let r = call_builtin(Builtin::Push, &args, &mut out).unwrap();
    assert_eq!(r.to_display_string(), "[1, 2, 3]");
    assert_eq!(args[0].to_display_string(), "[1, 2]");
    let printed = call_builtin(Builtin::Println, &args, &mut out).unwrap();
    assert!(matches!(printed, Object::Null));
    assert_eq!(get_output(&out), "[1, 2] 3\n");
}

#[test]
fn output_buffer() {
    let mut out = OutputBuffer::new();
    add_output(&mut out, "ab");
    add_output(&mut out, "c");
    assert_eq!(get_output(&out), "abc");
    clear_output(&mut out);
    assert_eq!(get_output(&out), "");
}

#[test]
fn truthiness_and_kinds() {
    assert!(Object::Number(2).is_truthy());
    assert!(!Object::Number(0).is_truthy());
    assert!(!Object::String(String::new()).is_truthy());
    assert!(Object::Array(vec![Object::Null]).is_truthy());
    assert!(!Object::Null.is_truthy());
    assert_eq!(Object::Null.kind_name(), "null");
    assert_eq!(Object::Boolean(true).kind_name(), "boolean");
}

#[test]
fn multiplication_nests_under_addition() {
    let ast = parse("1 + 2 * 3");
    let statements = match ast {
        AstNode::Program(s) => s,
        other => panic!("{:?}", other),
    };
    assert_eq!(statements.len(), 1);
    match &statements[0] {
        AstNode::InfixExpression { op: Token::Plus, left, right } => {
            assert!(matches!(**left, AstNode::Number(1)));
            assert!(matches!(
                &**right,
                AstNode::InfixExpression { op: Token::Multiply, .. }
            ));
        }
        other => panic!("{:?}", other),
    }
}

#[test]
fn subtraction_nests_to_the_left() {
    let ast = parse("10 - 3 - 2");
    let statements = match ast {
        AstNode::Program(s) => s,
        other => panic!("{:?}", other),
    };
    match &statements[0] {
        AstNode::InfixExpression { op: Token::Minus, left, right } => {
            assert!(matches!(
                &**left,
                AstNode::InfixExpression { op: Token::Minus, .. }
            ));
            assert!(matches!(**right, AstNode::Number(2)));
        }
        other => panic!("{:?}", other),
    }
}

#[test]
fn block_leaks_functions_into_the_environment() {
    let ast = parse("let x = 1; { fn f() { return 1; } let y = 2; let x = 3; }");
    let mut env = Environment::new();
    let mut out = OutputBuffer::new();
    assert!(evaluate(&ast, &mut env, &mut out).is_ok());
    assert!(env.get(&"f".to_string()).is_some());
    assert!(env.get(&"y".to_string()).is_none());
    assert!(matches!(env.get(&"x".to_string()), Some(Object::Number(1))));
    assert!(env.get(&"len".to_string()).is_some());
}

#[test]
fn evaluation_is_repeatable() {
    let src = "fn f(a) { return a * 2; } let xs = [1, 2, 3]; print(f(len(xs)), xs)";
    assert_eq!(run(src), run(src));
    assert_eq!(run(src), "6 [1, 2, 3]");
}

#[test]
fn number_text_round_trip_at_the_extremes() {
    assert_eq!(
        run("to_number(to_string(0 - 9223372036854775807 - 1))"),
        "-9223372036854775808"
    );
    assert_eq!(
        run("to_number(to_string(9223372036854775807))"),
        "9223372036854775807"
    );
    assert_eq!(parse_integer_text("-9223372036854775808"), Some(i64::MIN));
    assert_eq!(parse_integer_text("+9223372036854775808"), None);
    assert_eq!(parse_integer_text("-9223372036854775809"), None);
    assert!(matches!(
        tokenize("9223372036854775808").unwrap_err().kind,
        LexErrorKind::InvalidNumber
    ));
}

#[test]
fn blocks_left_by_a_signal_leak_nothing() {
    assert!(matches!(
        run_err("while (true) { fn g() { return 7; } break; } g()"),
        InterpreterError::Eval(EvalError::FunctionNotFound(_))
    ));
    assert_eq!(run("while (true) { fn g() { return 7; } break; }"), "");
    assert_eq!(run("{ fn h() { return 8; } 1 } h()"), "8");
}

#[test]
fn split_follows_the_delimiter_rules() {
    assert_eq!(run("split(\"rust\", \"\")"), "[\"\", \"r\", \"u\", \"s\", \"t\", \"\"]");
    assert_eq!(run("split(\"\", \"\")"), "[\"\", \"\"]");
    assert_eq!(run("split(\"aaa\", \"aa\")"), "[\"\", \"a\"]");
    assert_eq!(run("split(\"a,\", \",\")"), "[\"a\", \"\"]");
    assert_eq!(run("split(\"\", \",\")"), "[\"\"]");
}

#[test]
fn join_undoes_split() {
    assert_eq!(run("join(split(\"a--b----c\", \"--\"), \"--\")"), "a--b----c");
    assert_eq!(run("join(split(\"x\", \";\"), \";\")"), "x");
}

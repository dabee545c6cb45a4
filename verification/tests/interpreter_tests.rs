use rlox::RuntimeErrorTrait;
use rlox::Failure;
use rlox::Interpreter;
use rlox::Literal;
use rlox::Parser;
use rlox::RuntimeError;
use rlox::Token;
use rlox::TokenType;
use rlox::Value;

fn keyword(word: &str) -> Option<TokenType> {
    match word {
        "and" => Some(TokenType::And),
        "class" => Some(TokenType::Class),
        "else" => Some(TokenType::Else),
        "false" => Some(TokenType::False),
        "fun" => Some(TokenType::Fun),
        "for" => Some(TokenType::For),
        "if" => Some(TokenType::If),
        "nil" => Some(TokenType::Nil),
        "or" => Some(TokenType::Or),
        "print" => Some(TokenType::Print),
        "return" => Some(TokenType::Return),
        "super" => Some(TokenType::Super),
        "this" => Some(TokenType::This),
        "true" => Some(TokenType::True),
        "var" => Some(TokenType::Var),
        "while" => Some(TokenType::While),
        _ => None,
    }
}

fn tok(token_type: TokenType, lexeme: &str, literal: Option<Literal>) -> Token {
    Token { token_type, lexeme: lexeme.to_string(), literal, line: 1 }
}

/// A small scanner for the test programs: the real one lives outside the
/// verified core, which starts from tokens.
fn scan(src: &str) -> Vec<Token> {
    let chars: Vec<char> = src.chars().collect();
    let mut tokens = Vec::new();
    let mut i = 0usize;
    while i < chars.len() {
        let c = chars[i];
        match c {
            ' ' | '\t' | '\r' | '\n' => i += 1,
            '(' => { tokens.push(tok(TokenType::LeftParen, "(", None)); i += 1; }
            ')' => { tokens.push(tok(TokenType::RightParen, ")", None)); i += 1; }
            '{' => { tokens.push(tok(TokenType::LeftBrace, "{", None)); i += 1; }
            '}' => { tokens.push(tok(TokenType::RightBrace, "}", None)); i += 1; }
            ',' => { tokens.push(tok(TokenType::Comma, ",", None)); i += 1; }
            '.' => { tokens.push(tok(TokenType::Dot, ".", None)); i += 1; }
            '-' => { tokens.push(tok(TokenType::Minus, "-", None)); i += 1; }
            '+' => { tokens.push(tok(TokenType::Plus, "+", None)); i += 1; }
            ';' => { tokens.push(tok(TokenType::Semicolon, ";", None)); i += 1; }
            '/' => { tokens.push(tok(TokenType::Slash, "/", None)); i += 1; }
            '*' => { tokens.push(tok(TokenType::Star, "*", None)); i += 1; }
            '!' => {
                if i + 1 < chars.len() && chars[i + 1] == '=' {
                    tokens.push(tok(TokenType::BangEqual, "!=", None));
                    i += 2;
                } else {
                    tokens.push(tok(TokenType::Bang, "!", None));
                    i += 1;
                }
            }
            '=' => {
                if i + 1 < chars.len() && chars[i + 1] == '=' {
                    tokens.push(tok(TokenType::EqualEqual, "==", None));
                    i += 2;
                } else {
                    tokens.push(tok(TokenType::Equal, "=", None));
                    i += 1;
                }
            }
            '<' => {
                if i + 1 < chars.len() && chars[i + 1] == '=' {
                    tokens.push(tok(TokenType::LessEqual, "<=", None));
                    i += 2;
                } else {
                    tokens.push(tok(TokenType::Less, "<", None));
                    i += 1;
                }
            }
            '>' => {
                if i + 1 < chars.len() && chars[i + 1] == '=' {
                    tokens.push(tok(TokenType::GreaterEqual, ">=", None));
                    i += 2;
                } else {
                    tokens.push(tok(TokenType::Greater, ">", None));
                    i += 1;
                }
            }
            '"' => {
                let mut j = i + 1;
                while j < chars.len() && chars[j] != '"' {
                    j += 1;
                }
                let text: String = chars[i + 1..j].iter().collect();
                let lexeme: String = chars[i..=j].iter().collect();
                tokens.push(tok(TokenType::StringLit, &lexeme, Some(Literal::Str(text))));
                i = j + 1;
            }
            _ if c.is_ascii_digit() => {
                let mut j = i;
                while j < chars.len() && chars[j].is_ascii_digit() {
                    j += 1;
                }
                if j < chars.len() && chars[j] == '.' && j + 1 < chars.len()
                    && chars[j + 1].is_ascii_digit()
                {
                    j += 1;
                    while j < chars.len() && chars[j].is_ascii_digit() {
                        j += 1;
                    }
                }
                let lexeme: String = chars[i..j].iter().collect();
                let value: f64 = lexeme.parse().unwrap();
                tokens.push(tok(TokenType::Number, &lexeme, Some(Literal::Num(value.to_bits()))));
                i = j;
            }
            _ if c.is_ascii_alphabetic() || c == '_' => {
                let mut j = i;
                while j < chars.len() && (chars[j].is_ascii_alphanumeric() || chars[j] == '_') {
                    j += 1;
                }
                let word: String = chars[i..j].iter().collect();
                match keyword(&word) {
                    Some(tt) => tokens.push(tok(tt, &word, None)),
                    None => tokens.push(tok(TokenType::Identifier, &word, None)),
                }
                i = j;
            }
            _ => panic!("unexpected character {:?}", c),
        }
    }
    tokens.push(tok(TokenType::Eof, "", None));
    tokens
}

fn run(src: &str) -> (Vec<Value>, Result<(), Failure>) {
    run_with_fuel(src, 1_000_000)
}

fn run_with_fuel(src: &str, fuel: u64) -> (Vec<Value>, Result<(), Failure>) {
    let tokens = scan(src);
    let mut parser = Parser::new(tokens);
    let statements = parser.parse();
    assert!(parser.errors.is_empty(), "unexpected parse errors");
    let mut interpreter = Interpreter::new();
    let result = interpreter.interpret(&statements, fuel);
    (interpreter.output, result)
}

fn runtime_message(result: Result<(), Failure>) -> String {
    match result {
        Err(Failure::Error(e)) => e.message,
        other => panic!("expected a runtime error, got {:?}", other.is_ok()),
    }
}

fn as_f64(v: &Value) -> f64 {
    match v {
        Value::Num(b) => f64::from_bits(*b),
        _ => panic!("expected a number"),
    }
}

fn as_bool(v: &Value) -> bool {
    match v {
        Value::Bool(b) => *b,
        _ => panic!("expected a boolean"),
    }
}

#[test]
fn truthiness() {
    let (out, r) = run("print !nil; print !false; print !0; print !\"\"; print !true;");
    assert!(r.is_ok());
    let got: Vec<bool> = out.iter().map(as_bool).collect();
    assert_eq!(got, vec![true, true, false, false, false]);
}

#[test]
fn arithmetic_matches_ieee_doubles() {
    let pairs: Vec<(f64, f64)> = vec![(1.5, 2.25), (0.1, 0.2), (3.0, 0.0), (12345.678, 0.004)];
    for (a, b) in pairs {
        let src = format!(
            "print {a:?} + {b:?}; print {a:?} - {b:?}; print {a:?} * {b:?}; print {a:?} / {b:?};"
        );
        let (out, r) = run(&src);
        assert!(r.is_ok());
        assert_eq!(out.len(), 4);
        assert_eq!(as_f64(&out[0]).to_bits(), (a + b).to_bits(), "{a} + {b}");
        assert_eq!(as_f64(&out[1]).to_bits(), (a - b).to_bits(), "{a} - {b}");
        assert_eq!(as_f64(&out[2]).to_bits(), (a * b).to_bits(), "{a} * {b}");
        assert_eq!(as_f64(&out[3]).to_bits(), (a / b).to_bits(), "{a} / {b}");
    }
}

#[test]
fn string_concatenation() {
    let (out, r) = run("print \"fore\" + \"cast\";");
    assert!(r.is_ok());
    match &out[0] {
        Value::Str(s) => assert_eq!(s, "forecast"),
        _ => panic!("expected a string"),
    }
}

#[test]
fn plus_on_mixed_operands_is_a_type_error() {
    let (out, r) = run("print 1 + \"a\";");
    assert_eq!(out.len(), 0);
    assert_eq!(runtime_message(r), "Operands must be two numbers or two strings.");
}

#[test]
fn unary_minus_requires_a_number() {
    let (_, r) = run("print -\"a\";");
    assert_eq!(runtime_message(r), "Operand must be a number.");
}

#[test]
fn comparisons() {
    let (out, r) = run("print 1 < 2; print 2 <= 2; print 3 > 4; print 4 >= 4; print 1 == 1; print 1 != 1;");
    assert!(r.is_ok());
    let got: Vec<bool> = out.iter().map(as_bool).collect();
    assert_eq!(got, vec![true, true, false, true, true, false]);
}

#[test]
fn equality_on_strings_is_a_type_error() {
    let (_, r) = run("print \"a\" == \"a\";");
    assert_eq!(runtime_message(r), "Operands must be numbers.");
}

#[test]
fn logical_operators_short_circuit_and_keep_values() {
    let (out, r) = run("print nil or 2; print false and 3; print 1 and 2; print \"hi\" or 2;");
    assert!(r.is_ok());
    assert_eq!(as_f64(&out[0]), 2.0);
    assert!(!as_bool(&out[1]));
    assert_eq!(as_f64(&out[2]), 2.0);
    match &out[3] {
        Value::Str(s) => assert_eq!(s, "hi"),
        _ => panic!("expected a string"),
    }
}

#[test]
fn shadowing_in_a_block() {
    let (out, r) = run("var x = 1; { var x = 2; print x; } print x;");
    assert!(r.is_ok());
    assert_eq!(as_f64(&out[0]), 2.0);
    assert_eq!(as_f64(&out[1]), 1.0);
}

#[test]
fn closures_observe_later_mutations() {
    let (out, r) = run("var x = 1; fun get() { return x; } x = 2; print get();");
    assert!(r.is_ok());
    assert_eq!(as_f64(&out[0]), 2.0);
}

#[test]
fn closure_counter_keeps_private_state() {
    let src = "fun counter() { var i = 0; fun inc() { i = i + 1; return i; } return inc; } \
               var c = counter(); c(); print c();";
    let (out, r) = run(src);
    assert!(r.is_ok());
    assert_eq!(as_f64(&out[0]), 2.0);
}

#[test]
fn assignment_to_undeclared_name_fails() {
    let (out, r) = run("x = 1;");
    assert_eq!(out.len(), 0);
    assert_eq!(runtime_message(r), "Undefined variable 'x'.");
}

#[test]
fn assignment_does_not_create_a_global() {
    let (_, r) = run("{ y = 1; } print y;");
    assert_eq!(runtime_message(r), "Undefined variable 'y'.");
}

#[test]
fn for_loop_desugars_to_while() {
    let (out, r) = run("for (var i = 0; i < 3; i = i + 1) print i;");
    assert!(r.is_ok());
    let got: Vec<f64> = out.iter().map(as_f64).collect();
    assert_eq!(got, vec![0.0, 1.0, 2.0]);
}

#[test]
fn while_loop_runs_until_falsy() {
    let (out, r) = run("var i = 0; while (i < 2) i = i + 1; print i;");
    assert!(r.is_ok());
    assert_eq!(as_f64(&out[0]), 2.0);
}

#[test]
fn recursion_terminates_and_propagates_returns() {
    let (out, r) = run("fun f(n) { if (n < 1) return 0; return n + f(n - 1); } print f(3);");
    assert!(r.is_ok());
    assert_eq!(as_f64(&out[0]), 6.0);
}

#[test]
fn arity_mismatch_names_both_counts() {
    let (_, r) = run("fun g(a, b) { return a; } g(1);");
    assert_eq!(runtime_message(r), "Expected 2 arguments but got 1.");
    let (_, r2) = run("fun g(a, b) { return a; } g(1, 2, 3);");
    assert_eq!(runtime_message(r2), "Expected 2 arguments but got 3.");
}

#[test]
fn only_functions_can_be_called() {
    let (_, r) = run("1();");
    assert_eq!(runtime_message(r), "Can only call functions.");
}

#[test]
fn variable_must_be_defined_before_reading() {
    let (_, r) = run("print z;");
    assert_eq!(runtime_message(r), "Undefined variable 'z'.");
}

#[test]
fn top_level_return_is_fatal() {
    let (_, r) = run("return 1;");
    assert_eq!(runtime_message(r), "Cannot return from top-level code.");
}

#[test]
fn function_falls_off_end_to_nil() {
    let (out, r) = run("fun f() {} print f();");
    assert!(r.is_ok());
    assert!(matches!(out[0], Value::Nil));
}

#[test]
fn infinite_recursion_exhausts_the_fuel_bound() {
    let (_, r) = run_with_fuel("fun loopy() { loopy(); } loopy();", 100);
    assert!(matches!(r, Err(Failure::Exhausted)));
}

#[test]
fn clock_native_returns_a_number() {
    let (out, r) = run("print clock();");
    assert!(r.is_ok());
    assert!(as_f64(&out[0]) > 0.0);
}

#[test]
fn invalid_assignment_target_is_a_parse_error() {
    let tokens = scan("1 = 2;");
    let mut parser = Parser::new(tokens);
    let _ = parser.parse();
    assert_eq!(parser.errors.len(), 1);
    assert_eq!(parser.errors[0].message, "Invalid assignment target.");
}

#[test]
fn parser_recovers_at_statement_boundaries() {
    let tokens = scan("var = 3; print 7;");
    let mut parser = Parser::new(tokens);
    let statements = parser.parse();
    assert!(parser.errors.len() >= 1);
    // the statement after the broken one still parses
    assert_eq!(statements.len(), 1);
}

#[test]
fn print_evaluates_its_expression() {
    let (out, r) = run("print (1 + 2) * 3;");
    assert!(r.is_ok());
    assert_eq!(as_f64(&out[0]), 9.0);
}

#[test]
fn check_number_operand_helpers() {
    let op = tok(TokenType::Minus, "-", None);
    assert!(Interpreter::check_number_operand(&op, &Value::Num(1.0f64.to_bits())).is_ok());
    let e = Interpreter::check_number_operand(&op, &Value::Nil).unwrap_err();
    assert_eq!(e.message, "Operand must be a number.");
    let e2 = Interpreter::check_number_operands(&op, &Value::Num(0), &Value::Str("s".to_string()))
        .unwrap_err();
    assert_eq!(e2.message, "Operands must be numbers.");
}

#[test]
fn control_distinguishes_return_from_completion() {
    // a return inside a while still unwinds to the call boundary
    let (out, r) = run("fun f() { while (true) { return 5; } } print f();");
    assert!(r.is_ok());
    assert_eq!(as_f64(&out[0]), 5.0);
}

#[test]
fn runtime_error_trait_exposes_token_and_message() {
    let e = RuntimeError::new(tok(TokenType::Plus, "+", None), "boom".to_string());
    assert_eq!(e.message(), "boom");
    assert_eq!(e.token().lexeme, "+");
}

#[test]
fn globals_hold_the_clock_native() {
    let g = rlox::globals();
    assert_eq!(g.len(), 1);
    assert_eq!(g[0].0, "clock");
    match &g[0].1 {
        Value::Callable(c) => match &**c {
            rlox::LoxCallable::NativeFunction(f) => {
                assert_eq!(f.name, "clock");
                assert_eq!(f.params.len(), 0);
            }
            _ => panic!("expected the native function"),
        },
        _ => panic!("expected a callable"),
    }
}

#[test]
fn callable_arity() {
    let (out, r) = run("fun two(a, b) { return a + b; } print two(2, 3);");
    assert!(r.is_ok());
    assert_eq!(as_f64(&out[0]), 5.0);
}

#[test]
fn division_by_zero_gives_infinity() {
    let (out, r) = run("print 1 / 0; print -1 / 0;");
    assert!(r.is_ok());
    assert_eq!(as_f64(&out[0]), f64::INFINITY);
    assert_eq!(as_f64(&out[1]), f64::NEG_INFINITY);
}

#[test]
fn runtime_error_stops_the_program() {
    let (out, r) = run("print 1; print 1 + nil; print 2;");
    assert_eq!(out.len(), 1);
    assert!(r.is_err());
}

#[test]
fn if_else_branches() {
    let (out, r) = run("if (1 < 2) print 10; else print 20; if (nil) print 30; else print 40;");
    assert!(r.is_ok());
    let got: Vec<f64> = out.iter().map(as_f64).collect();
    assert_eq!(got, vec![10.0, 40.0]);
}

#[test]
fn assignment_is_an_expression() {
    let (out, r) = run("var a = 1; var b = 2; a = b = 3; print a; print b;");
    assert!(r.is_ok());
    let got: Vec<f64> = out.iter().map(as_f64).collect();
    assert_eq!(got, vec![3.0, 3.0]);
}

#[test]
fn precedence_and_left_associativity() {
    let (out, r) = run("print 1 + 2 * 3; print 2 - 1 - 1; print 8 / 4 / 2; print 1 + 2 == 3;");
    assert!(r.is_ok());
    assert_eq!(as_f64(&out[0]), 7.0);
    assert_eq!(as_f64(&out[1]), 0.0);
    assert_eq!(as_f64(&out[2]), 1.0);
    assert!(as_bool(&out[3]));
}

#[test]
fn dangling_else_binds_to_nearest_if() {
    let (out, r) = run("if (true) if (false) print 1; else print 2;");
    assert!(r.is_ok());
    assert_eq!(out.len(), 1);
    assert_eq!(as_f64(&out[0]), 2.0);
}

#[test]
fn bare_return_yields_nil() {
    let (out, r) = run("fun f() { return; } print f();");
    assert!(r.is_ok());
    assert!(matches!(out[0], Value::Nil));
}

#[test]
fn parser_recovers_after_broken_fun_declaration() {
    let tokens = scan("fun 1; print 7;");
    let mut parser = Parser::new(tokens);
    let statements = parser.parse();
    assert!(parser.errors.len() >= 1);
    assert_eq!(parser.errors[0].message, "Expect function name.");
    // the statement after the broken declaration still parses
    assert_eq!(statements.len(), 1);
}

use minilang::display::{natural_text, number_text};
use minilang::environment::{Env, Environment};
use minilang::errors::{InterpreterError, InterpreterErrorType};
use minilang::expression::BinaryOp;
use minilang::interpreter::Interpreter;
use minilang::parser_errors::{ParserError, ParserErrorType};
use minilang::program::{RunError, run_source};
use minilang::scanner::{ScanError, Scanner};
use minilang::token::{Token, TokenType};
use minilang::value::ScriptValue;

fn name(s: &str) -> String {
    s.to_string()
}

#[test]
fn enter_and_exit_balance() {
    let mut frames: Vec<Env> = Vec::new();
    let mut env = Environment::new(&mut frames);
    let root = env;
    env.enter(&mut frames);
    env.enter(&mut frames);
    assert_ne!(env, root);
    env.exit(&frames);
    env.exit(&frames);
    assert_eq!(env, root);
    assert_eq!(frames.len(), 3);
}

#[test]
fn declarations_shadow_and_assignments_update() {
    let mut frames: Vec<Env> = Vec::new();
    let mut env = Environment::new(&mut frames);
    env.put_new(&mut frames, name("x"), ScriptValue::Number(1));
    env.enter(&mut frames);
    assert_eq!(env.get(&frames, &name("x")), Some(ScriptValue::Number(1)));
    env.put_new(&mut frames, name("x"), ScriptValue::Number(2));
    assert_eq!(env.get(&frames, &name("x")), Some(ScriptValue::Number(2)));
    env.exit(&frames);
    assert_eq!(env.get(&frames, &name("x")), Some(ScriptValue::Number(1)));
    env.enter(&mut frames);
    assert!(env.put(&mut frames, &name("x"), ScriptValue::Number(5)));
    env.exit(&frames);
    assert_eq!(env.get(&frames, &name("x")), Some(ScriptValue::Number(5)));
    assert!(!env.put(&mut frames, &name("y"), ScriptValue::Null));
    assert_eq!(env.get(&frames, &name("y")), None);
}

#[test]
fn frame_local_operations() {
    let mut frame = Env::empty(None);
    assert_eq!(frame.get(&name("a")), None);
    assert!(!frame.put(&name("a"), ScriptValue::Boolean(true)));
    frame.put_new(name("a"), ScriptValue::Boolean(true));
    assert!(frame.put(&name("a"), ScriptValue::Boolean(false)));
    assert_eq!(frame.get(&name("a")), Some(ScriptValue::Boolean(false)));
}

#[test]
fn value_operations() {
    let seven = ScriptValue::Number(7);
    let two = ScriptValue::Number(2);
    assert_eq!(seven.numeric(two, BinaryOp::Plus).ok(), Some(ScriptValue::Number(9)));
    assert_eq!(seven.numeric(two, BinaryOp::Minus).ok(), Some(ScriptValue::Number(5)));
    assert_eq!(seven.numeric(two, BinaryOp::Star).ok(), Some(ScriptValue::Number(14)));
    assert_eq!(seven.numeric(two, BinaryOp::Slash).ok(), Some(ScriptValue::Number(3)));
    assert_eq!(ScriptValue::Number(-7).numeric(two, BinaryOp::Slash).ok(), Some(ScriptValue::Number(-3)));
    assert!(seven.numeric(ScriptValue::Number(0), BinaryOp::Slash).is_err());
    assert!(ScriptValue::Number(i64::MIN).numeric(ScriptValue::Number(-1), BinaryOp::Slash).is_err());
    assert!(ScriptValue::Number(i64::MAX).numeric(two, BinaryOp::Star).is_err());
    assert!(seven.numeric(ScriptValue::Null, BinaryOp::Plus).is_err());
    assert!(seven.numeric(two, BinaryOp::Lesser).is_err());
    assert_eq!(seven.boolean(two, BinaryOp::Greater).ok(), Some(ScriptValue::Boolean(true)));
    assert_eq!(seven.boolean(two, BinaryOp::EqLesser).ok(), Some(ScriptValue::Boolean(false)));
    assert_eq!(
        ScriptValue::Boolean(true).boolean(ScriptValue::Boolean(true), BinaryOp::Equals).ok(),
        Some(ScriptValue::Boolean(true))
    );
    assert!(ScriptValue::Boolean(true).boolean(ScriptValue::Boolean(false), BinaryOp::Lesser).is_err());
    assert!(seven.boolean(two, BinaryOp::Plus).is_err());
}

#[test]
fn number_texts() {
    assert_eq!(number_text(0), "0");
    assert_eq!(number_text(-5), "-5");
    assert_eq!(number_text(1234567), "1234567");
    assert_eq!(number_text(i64::MIN), "-9223372036854775808");
    assert_eq!(natural_text(10), "10");
}

#[test]
fn display_of_nested_values() {
    let (interpreter, result) = run_source(
        "var a = List(2) a[0] = List(1) a[1] = 0 - 4 print(a) var o = Object() o.self = o print(o.self.self.self == o)".to_string(),
        10_000,
    );
    assert!(matches!(result, Err(RunError::Runtime(_))));
    assert_eq!(interpreter.output, vec!["[[null], -4]"]);
    let (interpreter, result) =
        run_source("var o = Object() o.me = o print(o)".to_string(), 10_000);
    assert!(result.is_ok());
    assert!(interpreter.output[0].starts_with("{ me: { me: "));
    assert!(interpreter.output[0].contains("..."));
}

#[test]
fn error_messages() {
    assert_eq!(ScanError::UnterminatedString(3).message(), "Unterminated string at line 3");
    assert_eq!(ScanError::NumberTooLarge(12).message(), "Number too large at line 12");
    assert_eq!(ScanError::UnexpectedCharacter('#', 2).message(), "Unexpected # at line 2");
    assert_eq!(ParserError::eof().message(), "Reached end of line while parsing");
    let token = Token { token_type: TokenType::Assign, line: 4, col: 0 };
    assert_eq!(ParserError::unexpected(&token, "identifier").message(), "Line 4: expected identifier, found Assign");
    assert_eq!(
        ParserError::unexpected_token(&token, TokenType::RightParen).message(),
        "Line 4: expected RightParen, found Assign"
    );
    assert!(matches!(ParserError::eof().err_type, ParserErrorType::EOF));
    let interpreter = Interpreter::new();
    let e = InterpreterError::new(&ScriptValue::Null, InterpreterErrorType::UndefinedVariable(name("q")));
    assert_eq!(interpreter.error_message(&e), "Variable not found: q");
    let e = InterpreterError::new(&ScriptValue::Number(3), InterpreterErrorType::NotCallable);
    assert_eq!(interpreter.error_message(&e), "Not callable: 3");
    let e = InterpreterError::other(&ScriptValue::Boolean(true), "Not a size");
    assert_eq!(interpreter.error_message(&e), "Not a size: true");
    let e = InterpreterError::new(&ScriptValue::Null, InterpreterErrorType::OutOfFuel);
    assert_eq!(interpreter.error_message(&e), "Evaluation budget exhausted");
}

#[test]
fn builtins_are_registered() {
    let mut interpreter = Interpreter::new();
    for builtin in ["print", "Object", "List", "map"] {
        let v = interpreter.env.get(&interpreter.frames, &name(builtin));
        assert!(matches!(v, Some(ScriptValue::Function(_))));
    }
    let program = Vec::new();
    assert!(interpreter.exec(&program, 10).is_ok());
    assert!(interpreter.output.is_empty());
}

#[test]
fn scanning_twice_gives_the_same_tokens() {
    let src = "fn f(a) { return a * 2 } print(f(\"x\"))";
    let first = Scanner::new(src.to_string()).scan().ok().unwrap();
    let second = Scanner::new(src.to_string()).scan().ok().unwrap();
    assert_eq!(first.len(), second.len());
    for (a, b) in first.iter().zip(second.iter()) {
        assert_eq!(a.line, b.line);
        assert_eq!(
            minilang::parser_errors::kind_name(&a.token_type),
            minilang::parser_errors::kind_name(&b.token_type)
        );
    }
}

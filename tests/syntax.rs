use minilang::expression::{BinaryOp, Expression, Literal};
use minilang::parser::Parser;
use minilang::scanner::{ScanError, Scanner};
use minilang::statement::Statement;
use minilang::token::{Token, TokenType};

fn scan(src: &str) -> Vec<Token> {
    match Scanner::new(src.to_string()).scan() {
        Ok(tokens) => tokens,
        Err(_) => panic!("scan failed for {}", src),
    }
}

fn scan_error(src: &str) -> ScanError {
    match Scanner::new(src.to_string()).scan() {
        Ok(_) => panic!("no scan error for {}", src),
        Err(e) => e,
    }
}

fn parse_one_expression(src: &str) -> Expression {
    let mut parser = Parser::new(scan(src));
    let mut program = match parser.parse() {
        Ok(program) => program,
        Err(_) => panic!("parse failed for {}", src),
    };
    assert_eq!(program.len(), 1);
    match program.remove(0) {
        Statement::Expression(e) => e,
        _ => panic!("not an expression statement"),
    }
}

fn is_variable(e: &Expression, name: &str) -> bool {
    matches!(e, Expression::Variable(v) if v.identifier == name)
}

fn is_number(e: &Expression, n: i64) -> bool {
    matches!(e, Expression::Value(Literal::Number(m)) if *m == n)
}

#[test]
fn two_character_tokens() {
    let tokens = scan("= == != ! < <= > >= & && | ||");
    let kinds: Vec<bool> = vec![
        matches!(tokens[0].token_type, TokenType::Assign),
        matches!(tokens[1].token_type, TokenType::Equals),
        matches!(tokens[2].token_type, TokenType::NotEquals),
        matches!(tokens[3].token_type, TokenType::Not),
        matches!(tokens[4].token_type, TokenType::Lesser),
        matches!(tokens[5].token_type, TokenType::EqLesser),
        matches!(tokens[6].token_type, TokenType::Greater),
        matches!(tokens[7].token_type, TokenType::EqGreater),
        matches!(tokens[8].token_type, TokenType::BitAnd),
        matches!(tokens[9].token_type, TokenType::And),
        matches!(tokens[10].token_type, TokenType::BitOr),
        matches!(tokens[11].token_type, TokenType::Or),
    ];
    assert_eq!(tokens.len(), 12);
    assert!(kinds.iter().all(|k| *k));
}

#[test]
fn keywords_identifiers_and_literals() {
    let tokens = scan("var fn if else while return true false null _x1 42 \"a b\"");
    assert_eq!(tokens.len(), 12);
    assert!(matches!(tokens[0].token_type, TokenType::Var));
    assert!(matches!(tokens[1].token_type, TokenType::Func));
    assert!(matches!(tokens[2].token_type, TokenType::If));
    assert!(matches!(tokens[3].token_type, TokenType::Else));
    assert!(matches!(tokens[4].token_type, TokenType::While));
    assert!(matches!(tokens[5].token_type, TokenType::Return));
    assert!(matches!(tokens[6].token_type, TokenType::Boolean(true)));
    assert!(matches!(tokens[7].token_type, TokenType::Boolean(false)));
    assert!(matches!(tokens[8].token_type, TokenType::Null));
    assert!(matches!(tokens[9].token_type, TokenType::Identifier(ref s) if s == "_x1"));
    assert!(matches!(tokens[10].token_type, TokenType::Number(42)));
    assert!(matches!(tokens[11].token_type, TokenType::Str(ref s) if s == "a b"));
    let tokens = scan("variable iffy");
    assert!(matches!(tokens[0].token_type, TokenType::Identifier(ref s) if s == "variable"));
    assert!(matches!(tokens[1].token_type, TokenType::Identifier(ref s) if s == "iffy"));
}

#[test]
fn lines_are_counted() {
    let tokens = scan("a\nb\r\n\n  c");
    assert_eq!(tokens.len(), 3);
    assert_eq!(tokens[0].line, 1);
    assert_eq!(tokens[1].line, 2);
    assert_eq!(tokens[2].line, 4);
    assert!(scan("").is_empty());
}

#[test]
fn scanner_errors() {
    assert_eq!(scan_error("a\n#"), ScanError::UnexpectedCharacter('#', 2));
    assert_eq!(scan_error("\"open"), ScanError::UnterminatedString(1));
    assert_eq!(scan_error("99999999999999999999"), ScanError::NumberTooLarge(1));
}

#[test]
fn multiplication_binds_tighter_than_addition() {
    let e = parse_one_expression("a + b * c");
    match e {
        Expression::Addition { left, right, operator } => {
            assert_eq!(operator, BinaryOp::Plus);
            assert!(is_variable(&left, "a"));
            match *right {
                Expression::Multiplication { left, right, operator } => {
                    assert_eq!(operator, BinaryOp::Star);
                    assert!(is_variable(&left, "b"));
                    assert!(is_variable(&right, "c"));
                }
                _ => panic!("right side is not a product"),
            }
        }
        _ => panic!("not a sum"),
    }
}

#[test]
fn comparison_binds_loosest() {
    let e = parse_one_expression("1 + 2 < 3 * 4");
    match e {
        Expression::Condition { left, right, operator } => {
            assert_eq!(operator, BinaryOp::Lesser);
            assert!(matches!(*left, Expression::Addition { .. }));
            assert!(matches!(*right, Expression::Multiplication { .. }));
        }
        _ => panic!("not a comparison"),
    }
}

#[test]
fn suffixes_chain_left_to_right() {
    let e = parse_one_expression("f()[0].x");
    match e {
        Expression::Access { target, field } => {
            assert_eq!(field, "x");
            match *target {
                Expression::Index { target, index } => {
                    assert!(is_number(&index, 0));
                    match *target {
                        Expression::Call { callee, args } => {
                            assert!(is_variable(&callee, "f"));
                            assert!(args.is_empty());
                        }
                        _ => panic!("innermost is not a call"),
                    }
                }
                _ => panic!("middle is not an index"),
            }
        }
        _ => panic!("outermost is not an access"),
    }
}

#[test]
fn call_arguments_in_order() {
    let e = parse_one_expression("g(1, x)(2)");
    match e {
        Expression::Call { callee, args } => {
            assert_eq!(args.len(), 1);
            assert!(is_number(&args[0], 2));
            match *callee {
                Expression::Call { callee, args } => {
                    assert!(is_variable(&callee, "g"));
                    assert_eq!(args.len(), 2);
                    assert!(is_number(&args[0], 1));
                    assert!(is_variable(&args[1], "x"));
                }
                _ => panic!("inner is not a call"),
            }
        }
        _ => panic!("not a call"),
    }
}

#[test]
fn statements_without_terminators() {
    let mut parser = Parser::new(scan("var x = 1 x = x + 1 fn f(a, b) { return a } if x { f(1, 2) } else x while x x"));
    let program = match parser.parse() {
        Ok(p) => p,
        Err(_) => panic!("parse failed"),
    };
    assert_eq!(program.len(), 5);
    assert!(matches!(&program[0], Statement::Declaration { variables, initializer: Some(_) } if variables.len() == 1 && variables[0] == "x"));
    assert!(matches!(&program[1], Statement::Assignment { .. }));
    assert!(matches!(&program[2], Statement::Function { name, params, .. } if name == "f" && params.len() == 2));
    assert!(matches!(&program[3], Statement::If { else_body: Some(_), .. }));
    assert!(matches!(&program[4], Statement::While { .. }));
}

#[test]
fn non_ascii_text() {
    let tokens = scan("print(\"héllo wörld\")");
    assert_eq!(tokens.len(), 4);
    assert!(matches!(tokens[2].token_type, TokenType::Str(ref s) if s == "héllo wörld"));
    assert_eq!(scan_error("x = 1\né = 2"), ScanError::UnexpectedCharacter('é', 2));
}

#[test]
fn long_sources_scan() {
    let mut src = String::new();
    for i in 0..2000 {
        src.push_str(&format!("var v{} = {} + {}\n", i, i, i * 2));
    }
    let tokens = scan(&src);
    assert_eq!(tokens.len(), 2000 * 6);
    assert_eq!(tokens[tokens.len() - 1].line, 2000);
}

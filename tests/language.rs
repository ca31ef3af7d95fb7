use minilang::errors::InterpreterErrorType;
use minilang::interpreter::Interpreter;
use minilang::parser_errors::ParserErrorType;
use minilang::program::{RunError, run_source};

fn run(src: &str) -> (Interpreter, Result<(), RunError>) {
    run_source(src.to_string(), 100_000)
}

fn lines(src: &str) -> Vec<String> {
    let (interpreter, result) = run(src);
    assert!(result.is_ok(), "run failed for {}", src);
    interpreter.output
}

fn runtime_error(src: &str) -> InterpreterErrorType {
    match run(src).1 {
        Err(RunError::Runtime(e)) => e.err_type,
        Err(RunError::Scan(_)) => panic!("scan error for {}", src),
        Err(RunError::Parse(_)) => panic!("parse error for {}", src),
        Ok(()) => panic!("no error for {}", src),
    }
}

#[test]
fn arithmetic_and_precedence() {
    assert_eq!(lines("print(1 + 2 * 3)"), vec!["7"]);
}

#[test]
fn closure_captures_counter() {
    let src = "fn make() {\n  var n = 0\n  fn step() { n = n + 1 return n }\n  return step\n}\nvar s = make()\nprint(s()) print(s()) print(s())\n";
    assert_eq!(lines(src), vec!["1", "2", "3"]);
}

#[test]
fn object_method_with_self_binding() {
    let src = "var o = Object()\no.x = 10\nfn get() { return self.x }\no.get = get\nprint(o.get())\n";
    assert_eq!(lines(src), vec!["10"]);
}

#[test]
fn while_with_early_return() {
    let src = "fn firstEven(n) {\n  var i = 0\n  while i < n {\n    if i == 4 { return i }\n    i = i + 1\n  }\n  return 0\n}\nprint(firstEven(10))\n";
    assert_eq!(lines(src), vec!["4"]);
}

#[test]
fn list_construction_and_map() {
    let src = "var xs = List(3)\nxs[0] = 1 xs[1] = 2 xs[2] = 3\nfn dbl(x) { return x * 2 }\nprint(map(dbl, xs))\n";
    assert_eq!(lines(src), vec!["[2, 4, 6]"]);
}

#[test]
fn error_reporting_undefined_variable() {
    let (interpreter, result) = run("print(y)");
    assert!(interpreter.output.is_empty());
    match result {
        Err(RunError::Runtime(e)) => match e.err_type {
            InterpreterErrorType::UndefinedVariable(name) => assert_eq!(name, "y"),
            _ => panic!("wrong error kind"),
        },
        _ => panic!("expected a runtime error"),
    }
}

#[test]
fn empty_program_prints_nothing() {
    let (interpreter, result) = run("");
    assert!(result.is_ok());
    assert!(interpreter.output.is_empty());
    let (interpreter, result) = run("  \n\t\n");
    assert!(result.is_ok());
    assert!(interpreter.output.is_empty());
}

#[test]
fn assignment_to_undeclared_variable_fails() {
    assert!(matches!(runtime_error("x = 1"), InterpreterErrorType::UndefinedVariable(n) if n == "x"));
}

#[test]
fn calling_a_non_function_fails() {
    assert!(matches!(runtime_error("var a = 1 a()"), InterpreterErrorType::NotCallable));
    assert!(matches!(runtime_error("var o = Object() o()"), InterpreterErrorType::NotCallable));
}

#[test]
fn indexing_lists() {
    assert_eq!(lines("var xs = List(2) xs[1] = 5 print(xs[1]) print(xs[0])"), vec!["5", "null"]);
    assert!(matches!(runtime_error("var xs = List(2) print(xs[true])"), InterpreterErrorType::InvalidIndex));
    assert!(matches!(runtime_error("var xs = List(2) print(xs[\"a\"])"), InterpreterErrorType::InvalidIndex));
    assert!(matches!(runtime_error("var xs = List(2) print(xs[2])"), InterpreterErrorType::InvalidIndex));
    assert!(matches!(runtime_error("var xs = List(2) xs[5] = 1"), InterpreterErrorType::InvalidIndex));
    assert!(matches!(runtime_error("var a = 1 print(a[0])"), InterpreterErrorType::NotIndexable));
}

#[test]
fn nested_functions_see_outer_parameters() {
    let src = "fn outer(a) { fn inner(b) { return a + b } return inner(2) } print(outer(40))";
    assert_eq!(lines(src), vec!["42"]);
}

#[test]
fn closures_keep_captured_variables() {
    let src = "fn make() { var x = 5 fn get() { return x } return get } var g = make() print(g())";
    assert_eq!(lines(src), vec!["5"]);
}

#[test]
fn block_declaration_shadows_outer() {
    assert_eq!(lines("var x = 1 { var x = 2 print(x) } print(x)"), vec!["2", "1"]);
    assert_eq!(lines("var x = 1 { x = 2 } print(x)"), vec!["2"]);
}

#[test]
fn arithmetic_groups_to_the_right() {
    assert_eq!(lines("print(10 - 4 - 3)"), vec!["9"]);
    assert_eq!(lines("print((10 - 4) - 3)"), vec!["3"]);
    assert_eq!(lines("print(2 * 3 + 4)"), vec!["10"]);
}

#[test]
fn division_rounds_toward_zero() {
    assert_eq!(lines("print(7 / 2) print(0 - 7 / 2) print((0 - 7) / 2)"), vec!["3", "-3", "-3"]);
    assert!(matches!(runtime_error("print(1 / 0)"), InterpreterErrorType::InvalidOperation));
}

#[test]
fn overflow_is_an_error() {
    assert!(matches!(
        runtime_error("print(9223372036854775807 + 1)"),
        InterpreterErrorType::InvalidOperation
    ));
    assert_eq!(lines("print(9223372036854775807)"), vec!["9223372036854775807"]);
}

#[test]
fn comparisons() {
    assert_eq!(
        lines("print(1 < 2) print(2 <= 2) print(3 > 4) print(3 >= 4) print(1 == 1) print(1 != 1)"),
        vec!["true", "true", "false", "false", "true", "false"]
    );
    assert_eq!(lines("print(true == false) print(true != false)"), vec!["false", "true"]);
    assert!(matches!(runtime_error("print(1 == true)"), InterpreterErrorType::InvalidOperation));
    assert!(matches!(runtime_error("print(true < false)"), InterpreterErrorType::InvalidOperation));
    assert!(matches!(runtime_error("print(true + 1)"), InterpreterErrorType::InvalidOperation));
}

#[test]
fn conditions_must_be_exactly_true() {
    assert!(lines("if 1 { print(1) }").is_empty());
    assert_eq!(lines("if false { print(1) } else { print(2) }"), vec!["2"]);
    assert_eq!(lines("var i = 0 while i < 3 { i = i + 1 } print(i)"), vec!["3"]);
}

#[test]
fn display_forms() {
    assert_eq!(
        lines("print(true) print(null) print(\"hi there\") print(print) print(List(2))"),
        vec!["true", "null", "hi there", "Func", "[null, null]"]
    );
    assert_eq!(lines("var o = Object() print(o)"), vec!["{  }"]);
    assert_eq!(lines("var o = Object() o.x = 1 o.y = false print(o)"), vec!["{ x: 1, y: false }"]);
    assert_eq!(lines("var o = Object() o.x = 1 o.x = 2 print(o.x)"), vec!["2"]);
    assert_eq!(lines("var v = print(1) print(v)"), vec!["1", "()"]);
}

#[test]
fn object_errors() {
    assert!(matches!(runtime_error("var a = 1 print(a.x)"), InterpreterErrorType::NotObject));
    assert!(matches!(runtime_error("var o = Object() print(o.x)"), InterpreterErrorType::PropertyNotFound));
    assert!(matches!(runtime_error("var a = 1 a.x = 2"), InterpreterErrorType::NotObject));
    assert!(matches!(runtime_error("fn f() { return 1 } f() = 2"), InterpreterErrorType::NotAssignable));
}

#[test]
fn shared_objects_see_each_others_writes() {
    assert_eq!(lines("var a = Object() var b = a b.x = 3 print(a.x)"), vec!["3"]);
    assert_eq!(lines("var a = List(1) var b = a b[0] = 7 print(a)"), vec!["[7]"]);
}

#[test]
fn methods_bound_to_each_object() {
    let src = "fn who() { return self.n } var a = Object() a.n = 1 a.f = who var b = Object() b.n = 2 b.f = who print(a.f()) print(b.f())";
    assert_eq!(lines(src), vec!["1", "2"]);
}

#[test]
fn recursion_works() {
    let src = "fn fact(n) { if n < 2 { return 1 } return n * fact(n - 1) } print(fact(10))";
    assert_eq!(lines(src), vec!["3628800"]);
}

#[test]
fn extra_arguments_are_dropped_and_missing_are_unbound() {
    assert_eq!(lines("fn one(a) { return a } print(one(1, 2))"), vec!["1"]);
    assert!(matches!(runtime_error("fn two(a, b) { return b } print(two(1))"), InterpreterErrorType::UndefinedVariable(n) if n == "b"));
}

#[test]
fn builtin_argument_errors() {
    assert!(matches!(runtime_error("var xs = List(0 - 1)"), InterpreterErrorType::Other(_)));
    assert!(matches!(runtime_error("var xs = List(true)"), InterpreterErrorType::Other(_)));
    assert!(matches!(runtime_error("print(map(1, List(1)))"), InterpreterErrorType::NotCallable));
    assert!(matches!(runtime_error("fn f(x) { return x } print(map(f, 1))"), InterpreterErrorType::NotIndexable));
    assert!(matches!(runtime_error("fn f(x) { return y } print(map(f, List(1)))"), InterpreterErrorType::UndefinedVariable(_)));
}

#[test]
fn endless_loop_runs_out_of_fuel() {
    match run_source("while true { }".to_string(), 50).1 {
        Err(RunError::Runtime(e)) => assert!(matches!(e.err_type, InterpreterErrorType::OutOfFuel)),
        _ => panic!("expected out of fuel"),
    }
    match run_source("fn f() { return f() } f()".to_string(), 50).1 {
        Err(RunError::Runtime(e)) => assert!(matches!(e.err_type, InterpreterErrorType::OutOfFuel)),
        _ => panic!("expected out of fuel"),
    }
}

#[test]
fn parse_errors() {
    match run("var = 1").1 {
        Err(RunError::Parse(e)) => {
            assert!(matches!(e.err_type, ParserErrorType::Unexpected(ref s) if s == "identifier"));
            assert_eq!(e.token.unwrap().line, 1);
        }
        _ => panic!("expected a parse error"),
    }
    match run("print((1)").1 {
        Err(RunError::Parse(e)) => assert!(matches!(e.err_type, ParserErrorType::EOF)),
        _ => panic!("expected a parse error"),
    }
    match run("{ print(1)").1 {
        Err(RunError::Parse(e)) => assert!(matches!(e.err_type, ParserErrorType::EOF)),
        _ => panic!("expected a parse error"),
    }
    match run("\n\nvar x = )").1 {
        Err(RunError::Parse(e)) => {
            assert!(matches!(e.err_type, ParserErrorType::Unexpected(ref s) if s == "factor"));
            assert_eq!(e.token.unwrap().line, 3);
        }
        _ => panic!("expected a parse error"),
    }
    match run("fn f(a b) { }").1 {
        Err(RunError::Parse(e)) => assert!(matches!(e.err_type, ParserErrorType::Unexpected(ref s) if s == "RightParen")),
        _ => panic!("expected a parse error"),
    }
    match run("var o = Object() print(o.1)").1 {
        Err(RunError::Parse(e)) => assert!(matches!(e.err_type, ParserErrorType::Unexpected(ref s) if s == "object")),
        _ => panic!("expected a parse error"),
    }
}

#[test]
fn same_source_same_result() {
    let src = "var o = Object() o.a = List(2) o.a[0] = 3 o.a[1] = 4 fn f(x) { return x + 1 } print(map(f, o.a)) print(o)";
    let first = lines(src);
    let second = lines(src);
    assert_eq!(first, second);
    assert_eq!(first, vec!["[4, 5]", "{ a: [3, 4] }"]);
}

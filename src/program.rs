use vstd::prelude::*;

use crate::errors::InterpreterError;
use crate::interpreter::Interpreter;
use crate::parser::Parser;
use crate::parser_errors::ParserError;
use crate::builtin::fresh;
use crate::grammar::{kinds, parse_program, stmts_model};
use crate::scanner::{ScanError, Scanner, scan_spec, tokens_model};
use crate::semantics::{program_rel, witness};
use crate::statement::Statement;
use crate::token::TokenKind;

verus! {

/// Why a run stopped early: in the scanner, the parser or the evaluator.
pub enum RunError {
    Scan(ScanError),
    Parse(ParserError),
    Runtime(InterpreterError),
}

/// How a run ends once the source has scanned to the token kinds `ks`: a
/// parse error where the grammar rejects them; otherwise the program the
/// grammar gives runs from a fresh interpreter, and `t` and `r` are where that
/// run ends.
pub open spec fn run_law(ks: Seq<TokenKind>, fuel: nat, t: Interpreter, r: Result<(), RunError>) -> bool {
    match parse_program(ks, 0, Seq::empty()) {
        None => r matches Err(RunError::Parse(_)),
        Some(p) => exists|init: Interpreter, program: Seq<Statement>, res: Result<(), InterpreterError>|
            #[trigger] witness((init, program, res)) && fresh(init) && stmts_model(program) == p && program_rel(
                init,
                program,
                0,
                fuel,
                t,
                res,
            ) && match res {
                Ok(()) => r is Ok,
                Err(e) => r matches Err(RunError::Runtime(x)) && x == e,
            },
    }
}

/// Scans, parses and runs `source` with the built-ins in scope. Returns the
/// interpreter, whose `output` holds what `print` wrote, and how the run ended.
pub fn run_source(source: String, fuel: u64) -> (r: (Interpreter, Result<(), RunError>))
    requires
        source@.len() < usize::MAX,
    ensures
        r.0.wf(),
        scan_spec(source@) matches Err(e) ==> (r.1 matches Err(RunError::Scan(f)) && f == e),
        scan_spec(source@) is Ok ==> !(r.1 matches Err(RunError::Scan(_))),
        source@.len() == 0 ==> r.1 is Ok && r.0.output@.len() == 0,
        scan_spec(source@) matches Ok(toks) ==> run_law(toks.map_values(|t: (TokenKind, nat)| t.0), fuel as nat, r.0, r.1),
{
    let mut interpreter = Interpreter::new();
    let tokens = match Scanner::new(source).scan() {
        Ok(tokens) => tokens,
        Err(e) => {
            return (interpreter, Err(RunError::Scan(e)));
        },
    };
    let ghost ks = kinds(tokens@);
    proof {
        assert(ks =~= tokens_model(tokens@).map_values(|t: (TokenKind, nat)| t.0));
    }
    let mut parser = Parser::new(tokens);
    let program = match parser.parse() {
        Ok(program) => program,
        Err(e) => {
            return (interpreter, Err(RunError::Parse(e)));
        },
    };
    let ghost init = interpreter;
    let res = interpreter.exec(&program, fuel);
    proof {
        assert(witness((init, program@, res)));
    }
    match res {
        Ok(()) => (interpreter, Ok(())),
        Err(e) => (interpreter, Err(RunError::Runtime(e))),
    }
}

} // verus!

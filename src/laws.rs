use vstd::prelude::*;

use crate::expression::BinaryOp;
use crate::grammar::{
    ExprModel, addition_of, at, comparison_of, multiplication_of, parse_addition, parse_condition,
    parse_expression, parse_factor, parse_multiplication, parse_program, parse_suffixes, primary_of,
};
use crate::environment::{Env, defining_frame, frame_get, frames_wf, lemma_defining_frame, lemma_lookup_frames_agree, lookup, same_frame};
use crate::interpreter::{Interpreter, frames_persist};
use crate::scanner::{ScanError, scan_spec};
use crate::token::TokenKind;
use crate::value::ScriptValue;

verus! {

/// Once a name resolves from a frame, it keeps resolving from it while frames
/// persist.
proof fn lemma_lookup_persists(a: Seq<Env>, b: Seq<Env>, f: int, x: Seq<char>)
    requires
        frames_wf(a),
        frames_persist(a, b),
        lookup(a, f, x) is Some,
    ensures
        lookup(b, f, x) is Some,
    decreases f,
{
    lemma_defining_frame(a, f, x);
    if frame_get(b[f].variables@, x) is None {
        assert(frame_get(a[f].variables@, x) is None);
        let p = a[f].parent->Some_0;
        lemma_lookup_persists(a, b, p as int, x);
        assert(b[f].parent == a[f].parent);
    }
}

/// Lexical capture: a function keeps the frame it captured, and a name that
/// resolved from that frame still resolves from it after any further
/// evaluation, also once the declaring scope has been left. It resolves as
/// well from the frame of any call of the function, which is a child of the
/// captured frame.
pub proof fn capture_law(s: &Interpreter, t: &Interpreter, fi: int, x: Seq<char>, call_frame: int)
    requires
        s.wf(),
        t.wf(),
        s.extends(t),
        0 <= fi < s.functions@.len(),
        lookup(s.frames@, s.functions@[fi].env as int, x) is Some,
    ensures
        t.functions@[fi].env == s.functions@[fi].env,
        lookup(t.frames@, t.functions@[fi].env as int, x) is Some,
        0 <= call_frame < t.frames@.len() && t.frames@[call_frame].parent == Some(t.functions@[fi].env)
            ==> lookup(t.frames@, call_frame, x) is Some,
{
    let cap = s.functions@[fi].env as int;
    lemma_lookup_persists(s.frames@, t.frames@, cap, x);
    if 0 <= call_frame < t.frames@.len() && t.frames@[call_frame].parent == Some(t.functions@[fi].env) {
        lemma_defining_frame(t.frames@, cap, x);
        lemma_defining_frame(t.frames@, call_frame, x);
    }
}

/// Shadowing: a binding made in a child scope is invisible from the enclosing
/// scope. While the child frame binds `x` to `v`, `x` reads `v` inside it; and
/// from the enclosing frame every name, `x` included, reads as it did before
/// the child scope was entered, so leaving the child restores the outer `x`.
pub proof fn shadowing_law(before: Seq<Env>, inside: Seq<Env>, f: int, x: Seq<char>, v: ScriptValue)
    requires
        frames_wf(before),
        0 <= f < before.len(),
        inside.len() == before.len() + 1,
        forall|i: int| 0 <= i < before.len() ==> #[trigger] inside[i] == before[i],
        inside[before.len() as int].parent == Some(f as usize),
        frame_get(inside[before.len() as int].variables@, x) == Some(v),
    ensures
        lookup(inside, before.len() as int, x) == Some(v),
        forall|n: Seq<char>| #[trigger] lookup(inside, f, n) == lookup(before, f, n),
{
    assert forall|n: Seq<char>| #[trigger] lookup(inside, f, n) == lookup(before, f, n) by {
        assert forall|i: int| 0 <= i < before.len() implies same_frame(#[trigger] before[i], inside[i]) by {
            assert(inside[i] == before[i]);
        }
        lemma_lookup_frames_agree(before, inside, f, n);
    }
    assert(defining_frame(inside, before.len() as int, x) == Some(before.len() as int));
}

/// Lexing and parsing are functions of the source text: texts with the same
/// characters scan to the same tokens, or fail with the same error, and the
/// same tokens give the same program, or are rejected alike. `Scanner::scan`
/// and `Parser::parse` return exactly `scan_spec` and `parse_program`.
pub proof fn lexing_is_a_function(
    s1: Seq<char>,
    s2: Seq<char>,
    r1: Result<Seq<(TokenKind, nat)>, ScanError>,
    r2: Result<Seq<(TokenKind, nat)>, ScanError>,
)
    requires
        s1 == s2,
        r1 == scan_spec(s1),
        r2 == scan_spec(s2),
    ensures
        r1 == r2,
        r1 is Ok ==> parse_program(r1->Ok_0.map_values(|t: (TokenKind, nat)| t.0), 0, Seq::empty()) == parse_program(
            r2->Ok_0.map_values(|t: (TokenKind, nat)| t.0),
            0,
            Seq::empty(),
        ),
{
}

/// Nested functions: a function declared inside another captures an empty
/// child of the scope it was declared in, so from the captured frame every name,
/// the enclosing function's parameters among them, resolves as in that scope.
/// In a call, whose frame is a child of the captured frame, the function's own
/// parameter resolves to its argument and every name the call frame does not
/// bind resolves as in the declaring scope.
pub proof fn nested_scope_law(
    frames: Seq<Env>,
    outer: usize,
    cap: usize,
    call: usize,
    param: Seq<char>,
    arg: ScriptValue,
    n: Seq<char>,
)
    requires
        frames_wf(frames),
        outer < frames.len(),
        cap < frames.len(),
        call < frames.len(),
        frames[cap as int].parent == Some(outer),
        frames[cap as int].variables@.len() == 0,
        frames[call as int].parent == Some(cap),
        frame_get(frames[call as int].variables@, param) == Some(arg),
        frame_get(frames[call as int].variables@, n) is None,
    ensures
        lookup(frames, cap as int, n) == lookup(frames, outer as int, n),
        lookup(frames, call as int, param) == Some(arg),
        lookup(frames, call as int, n) == lookup(frames, outer as int, n),
{
    assert(frame_get(frames[cap as int].variables@, n) is None);
    assert(defining_frame(frames, cap as int, n) == defining_frame(frames, outer as int, n));
    assert(defining_frame(frames, call as int, n) == defining_frame(frames, cap as int, n));
}

/// Suffixes never move the parser back.
proof fn lemma_suffixes_progress(ks: Seq<TokenKind>, base: ExprModel, i: int)
    ensures
        parse_suffixes(ks, base, i) matches Some((_, k)) ==> i <= k <= ks.len(),
    decreases ks.len() - i,
{
    if 0 <= i <= ks.len() {
        if at(ks, i, TokenKind::LeftParen) {
            match crate::grammar::parse_arguments(ks, i + 1, Seq::empty()) {
                Some((n, k)) => {
                    if i < k && at(ks, k, TokenKind::RightParen) {
                        lemma_suffixes_progress(ks, ExprModel::Call(Box::new(base), n), k + 1);
                    }
                },
                None => {},
            }
        } else if at(ks, i, TokenKind::LeftBrace) {
            match parse_expression(ks, i + 1) {
                Some((index, k)) => {
                    if i < k && at(ks, k, TokenKind::RightBrace) {
                        lemma_suffixes_progress(ks, ExprModel::Index(Box::new(base), Box::new(index)), k + 1);
                    }
                },
                None => {},
            }
        } else if at(ks, i, TokenKind::Dot) {
            if i + 1 < ks.len() && ks[i + 1] is Identifier {
                lemma_suffixes_progress(ks, ExprModel::Access(Box::new(base), ks[i + 1]->Identifier_0), i + 2);
            }
        }
    }
}

/// A factor takes at least one token.
proof fn lemma_factor_progress(ks: Seq<TokenKind>, i: int)
    ensures
        parse_factor(ks, i) matches Some((_, k)) ==> i < k <= ks.len(),
{
    if 0 <= i < ks.len() {
        if primary_of(ks[i]) is Some {
            lemma_suffixes_progress(ks, primary_of(ks[i])->Some_0, i + 1);
        } else if ks[i] == TokenKind::LeftParen {
            match parse_expression(ks, i + 1) {
                Some((e, k)) => {
                    if i < k && at(ks, k, TokenKind::RightParen) {
                        lemma_suffixes_progress(ks, e, k + 1);
                    }
                },
                None => {},
            }
        }
    }
}

proof fn lemma_multiplication_progress(ks: Seq<TokenKind>, i: int)
    ensures
        parse_multiplication(ks, i) matches Some((_, k)) ==> i < k <= ks.len(),
    decreases ks.len() - i,
{
    lemma_factor_progress(ks, i);
    if let Some((_, k)) = parse_factor(ks, i) {
        if i < k < ks.len() && multiplication_of(ks[k]) is Some {
            lemma_multiplication_progress(ks, k + 1);
        }
    }
}

proof fn lemma_addition_progress(ks: Seq<TokenKind>, i: int)
    ensures
        parse_addition(ks, i) matches Some((_, k)) ==> i < k <= ks.len(),
    decreases ks.len() - i,
{
    lemma_multiplication_progress(ks, i);
    if let Some((_, k)) = parse_multiplication(ks, i) {
        if i < k < ks.len() && addition_of(ks[k]) is Some {
            lemma_addition_progress(ks, k + 1);
        }
    }
}

/// An expression takes at least one token.
proof fn lemma_expression_progress(ks: Seq<TokenKind>, i: int)
    ensures
        parse_expression(ks, i) matches Some((_, k)) ==> i < k <= ks.len(),
    decreases ks.len() - i,
{
    lemma_addition_progress(ks, i);
    if let Some((_, k)) = parse_addition(ks, i) {
        if i < k < ks.len() && comparison_of(ks[k]) is Some {
            lemma_expression_progress(ks, k + 1);
        }
    }
}

/// No binary operator at `i`: the expression ends there.
pub open spec fn no_operator_at(ks: Seq<TokenKind>, i: int) -> bool {
    0 <= i < ks.len() ==> multiplication_of(ks[i]) is None && addition_of(ks[i]) is None && comparison_of(ks[i]) is None
}

/// Precedence: for any operands `a`, `b` and `c` (each a factor: a literal, a
/// variable or a parenthesised expression, with any suffixes), `a + b * c`
/// parses as `a + (b * c)`.
pub proof fn precedence_law(ks: Seq<TokenKind>, i: int)
    requires
        parse_factor(ks, i) is Some,
        at(ks, parse_factor(ks, i)->Some_0.1, TokenKind::Plus),
        parse_factor(ks, parse_factor(ks, i)->Some_0.1 + 1) is Some,
        at(ks, parse_factor(ks, parse_factor(ks, i)->Some_0.1 + 1)->Some_0.1, TokenKind::Star),
        parse_factor(ks, parse_factor(ks, parse_factor(ks, i)->Some_0.1 + 1)->Some_0.1 + 1) is Some,
        no_operator_at(ks, parse_factor(ks, parse_factor(ks, parse_factor(ks, i)->Some_0.1 + 1)->Some_0.1 + 1)->Some_0.1),
    ensures
        ({
            let (a, j) = parse_factor(ks, i)->Some_0;
            let (b, k) = parse_factor(ks, j + 1)->Some_0;
            let (c, end) = parse_factor(ks, k + 1)->Some_0;
            parse_expression(ks, i) == Some(
                (
                    ExprModel::Addition(
                        Box::new(a),
                        BinaryOp::Plus,
                        Box::new(ExprModel::Multiplication(Box::new(b), BinaryOp::Star, Box::new(c))),
                    ),
                    end,
                ),
            )
        }),
{
    let (a, j) = parse_factor(ks, i)->Some_0;
    let (b, k) = parse_factor(ks, j + 1)->Some_0;
    let (c, end) = parse_factor(ks, k + 1)->Some_0;
    lemma_factor_progress(ks, i);
    lemma_factor_progress(ks, j + 1);
    lemma_factor_progress(ks, k + 1);
    let product = ExprModel::Multiplication(Box::new(b), BinaryOp::Star, Box::new(c));
    assert(parse_multiplication(ks, k + 1) == Some((c, end)));
    assert(parse_multiplication(ks, j + 1) == Some((product, end)));
    assert(parse_addition(ks, j + 1) == Some((product, end)));
    assert(parse_multiplication(ks, i) == Some((a, j)));
    let sum = ExprModel::Addition(Box::new(a), BinaryOp::Plus, Box::new(product));
    assert(parse_addition(ks, i) == Some((sum, end)));
    assert(parse_condition(ks, i) == Some((sum, end)));
}

/// No suffix starts at `i`.
pub open spec fn no_suffix_at(ks: Seq<TokenKind>, i: int) -> bool {
    !at(ks, i, TokenKind::LeftParen) && !at(ks, i, TokenKind::LeftBrace) && !at(ks, i, TokenKind::Dot)
}

/// Chained suffixes compose left to right: for any primary `f` and any index
/// expression `e`, `f()[e].x` parses as `Access(Index(Call(f), e), x)`.
pub proof fn suffix_chain_law(ks: Seq<TokenKind>, i: int)
    requires
        0 <= i,
        i + 4 <= ks.len(),
        primary_of(ks[i]) is Some,
        ks[i + 1] == TokenKind::LeftParen,
        ks[i + 2] == TokenKind::RightParen,
        ks[i + 3] == TokenKind::LeftBrace,
        parse_expression(ks, i + 4) is Some,
        at(ks, parse_expression(ks, i + 4)->Some_0.1, TokenKind::RightBrace),
        at(ks, parse_expression(ks, i + 4)->Some_0.1 + 1, TokenKind::Dot),
        parse_expression(ks, i + 4)->Some_0.1 + 2 < ks.len(),
        ks[parse_expression(ks, i + 4)->Some_0.1 + 2] is Identifier,
        no_suffix_at(ks, parse_expression(ks, i + 4)->Some_0.1 + 3),
        no_operator_at(ks, parse_expression(ks, i + 4)->Some_0.1 + 3),
    ensures
        ({
            let f = primary_of(ks[i])->Some_0;
            let (e, k) = parse_expression(ks, i + 4)->Some_0;
            let x = ks[k + 2]->Identifier_0;
            let chain = ExprModel::Access(
                Box::new(ExprModel::Index(Box::new(ExprModel::Call(Box::new(f), Seq::empty())), Box::new(e))),
                x,
            );
            &&& parse_factor(ks, i) == Some((chain, k + 3))
            &&& parse_expression(ks, i) == Some((chain, k + 3))
        }),
{
    let f = primary_of(ks[i])->Some_0;
    let (e, k) = parse_expression(ks, i + 4)->Some_0;
    let x = ks[k + 2]->Identifier_0;
    let call = ExprModel::Call(Box::new(f), Seq::empty());
    let index = ExprModel::Index(Box::new(call), Box::new(e));
    let chain = ExprModel::Access(Box::new(index), x);
    lemma_expression_progress(ks, i + 4);
    assert(crate::grammar::parse_arguments(ks, i + 2, Seq::empty()) == Some((Seq::<ExprModel>::empty(), i + 2)));
    assert(parse_suffixes(ks, chain, k + 3) == Some((chain, k + 3)));
    assert(parse_suffixes(ks, index, k + 1) == Some((chain, k + 3)));
    assert(parse_suffixes(ks, call, i + 3) == Some((chain, k + 3)));
    assert(parse_suffixes(ks, f, i + 1) == Some((chain, k + 3)));
    assert(parse_factor(ks, i) == Some((chain, k + 3)));
    assert(parse_multiplication(ks, i) == Some((chain, k + 3)));
    assert(parse_addition(ks, i) == Some((chain, k + 3)));
    assert(parse_condition(ks, i) == Some((chain, k + 3)));
}

} // verus!

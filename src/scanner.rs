use vstd::prelude::*;
use vstd::string::*;

use crate::display::{nat_digits, natural_text};
use crate::token::{Token, TokenKind, TokenType, token_model};

verus! {

/// Why the scanner gave up; each error carries the line it happened on.
#[derive(PartialEq, Eq, Structural, Clone, Copy, Debug)]
pub enum ScanError {
    UnexpectedCharacter(char, usize),
    UnterminatedString(usize),
    NumberTooLarge(usize),
}

impl ScanError {
    /// A one-line description of the error, naming the line.
    pub fn message(&self) -> (r: String)
        ensures
            self matches ScanError::UnexpectedCharacter(c, line) ==> exists|shown: Seq<char>|
                r@ == "Unexpected "@ + shown + " at line "@ + nat_digits(line as nat),
            self matches ScanError::UnterminatedString(line) ==> r@ == "Unterminated string at line "@ + nat_digits(
                line as nat,
            ),
            self matches ScanError::NumberTooLarge(line) ==> r@ == "Number too large at line "@ + nat_digits(
                line as nat,
            ),
    {
        proof {
            reveal_strlit("Unterminated string at line ");
            reveal_strlit("Number too large at line ");
            reveal_strlit("Unexpected ");
            reveal_strlit(" at line ");
        }
        match self {
            ScanError::UnexpectedCharacter(c, line) => {
                let mut r = "Unexpected ".to_owned();
                let shown = c.to_string();
                r.append(shown.as_str());
                r.append(" at line ");
                r.append(natural_text(*line as u64).as_str());
                proof {
                    assert(r@ =~= "Unexpected "@ + shown@ + " at line "@ + nat_digits(*line as nat));
                }
                r
            },
            ScanError::UnterminatedString(line) => {
                let mut r = "Unterminated string at line ".to_owned();
                r.append(natural_text(*line as u64).as_str());
                r
            },
            ScanError::NumberTooLarge(line) => {
                let mut r = "Number too large at line ".to_owned();
                r.append(natural_text(*line as u64).as_str());
                r
            },
        }
    }
}

pub open spec fn is_word_start(c: char) -> bool {
    ('A' <= c && c <= 'Z') || ('a' <= c && c <= 'z') || c == '_'
}

pub open spec fn is_digit(c: char) -> bool {
    '0' <= c && c <= '9'
}

pub open spec fn is_word_char(c: char) -> bool {
    is_word_start(c) || is_digit(c)
}

/// First index at or after `i` that does not continue a word.
pub open spec fn word_end(s: Seq<char>, i: int) -> int
    decreases s.len() - i,
{
    if 0 <= i < s.len() && is_word_char(s[i]) {
        word_end(s, i + 1)
    } else {
        i
    }
}

/// First index at or after `i` that is not a digit.
pub open spec fn digits_end(s: Seq<char>, i: int) -> int
    decreases s.len() - i,
{
    if 0 <= i < s.len() && is_digit(s[i]) {
        digits_end(s, i + 1)
    } else {
        i
    }
}

/// First index at or after `i` that holds a double quote, or the length.
pub open spec fn quote_end(s: Seq<char>, i: int) -> int
    decreases s.len() - i,
{
    if 0 <= i < s.len() && s[i] != '"' {
        quote_end(s, i + 1)
    } else {
        i
    }
}

pub open spec fn digit_value(c: char) -> int {
    (c as int) - ('0' as int)
}

/// The decimal number written by `s[i..j]`.
pub open spec fn digits_value(s: Seq<char>, i: int, j: int) -> int
    decreases j - i,
{
    if j <= i {
        0
    } else {
        digits_value(s, i, j - 1) * 10 + digit_value(s[j - 1])
    }
}

/// The reserved token that a word stands for, or an identifier.
pub open spec fn word_kind(w: Seq<char>) -> TokenKind {
    if w == seq!['v', 'a', 'r'] {
        TokenKind::Var
    } else if w == seq!['i', 'f'] {
        TokenKind::If
    } else if w == seq!['e', 'l', 's', 'e'] {
        TokenKind::Else
    } else if w == seq!['f', 'n'] {
        TokenKind::Func
    } else if w == seq!['w', 'h', 'i', 'l', 'e'] {
        TokenKind::While
    } else if w == seq!['t', 'r', 'u', 'e'] {
        TokenKind::Boolean(true)
    } else if w == seq!['f', 'a', 'l', 's', 'e'] {
        TokenKind::Boolean(false)
    } else if w == seq!['n', 'u', 'l', 'l'] {
        TokenKind::Null
    } else if w == seq!['r', 'e', 't', 'u', 'r', 'n'] {
        TokenKind::Return
    } else {
        TokenKind::Identifier(w)
    }
}

pub open spec fn single_kind(c: char) -> Option<TokenKind> {
    if c == '+' {
        Some(TokenKind::Plus)
    } else if c == '-' {
        Some(TokenKind::Minus)
    } else if c == '*' {
        Some(TokenKind::Star)
    } else if c == '/' {
        Some(TokenKind::Slash)
    } else if c == '(' {
        Some(TokenKind::LeftParen)
    } else if c == ')' {
        Some(TokenKind::RightParen)
    } else if c == '{' {
        Some(TokenKind::LeftBracket)
    } else if c == '}' {
        Some(TokenKind::RightBracket)
    } else if c == '[' {
        Some(TokenKind::LeftBrace)
    } else if c == ']' {
        Some(TokenKind::RightBrace)
    } else if c == ',' {
        Some(TokenKind::Comma)
    } else if c == '.' {
        Some(TokenKind::Dot)
    } else {
        None
    }
}

/// For a character that may start a two-character token: the character that
/// completes it, the long form and the short form.
pub open spec fn pair_kinds(c: char) -> Option<(char, TokenKind, TokenKind)> {
    if c == '=' {
        Some(('=', TokenKind::Equals, TokenKind::Assign))
    } else if c == '<' {
        Some(('=', TokenKind::EqLesser, TokenKind::Lesser))
    } else if c == '>' {
        Some(('=', TokenKind::EqGreater, TokenKind::Greater))
    } else if c == '!' {
        Some(('=', TokenKind::NotEquals, TokenKind::Not))
    } else if c == '&' {
        Some(('&', TokenKind::And, TokenKind::BitAnd))
    } else if c == '|' {
        Some(('|', TokenKind::Or, TokenKind::BitOr))
    } else {
        None
    }
}

pub open spec fn is_blank(c: char) -> bool {
    c == ' ' || c == '\r' || c == '\t'
}

/// One scanning step at index `i` (which must be inside `s`): the token found,
/// if any, the index after it and the line after it.
pub open spec fn step_spec(s: Seq<char>, i: int, line: nat) -> Result<
    (Option<(TokenKind, nat)>, int, nat),
    ScanError,
> {
    let c = s[i];
    if is_blank(c) {
        Ok((None, i + 1, line))
    } else if c == '\n' {
        Ok((None, i + 1, line + 1))
    } else if single_kind(c) is Some {
        Ok((Some((single_kind(c).unwrap(), line)), i + 1, line))
    } else if pair_kinds(c) is Some {
        let (second, long, short) = pair_kinds(c).unwrap();
        if i + 1 < s.len() && s[i + 1] == second {
            Ok((Some((long, line)), i + 2, line))
        } else {
            Ok((Some((short, line)), i + 1, line))
        }
    } else if is_word_start(c) {
        let j = word_end(s, i + 1);
        Ok((Some((word_kind(s.subrange(i, j)), line)), j, line))
    } else if is_digit(c) {
        let j = digits_end(s, i + 1);
        let v = digits_value(s, i, j);
        if v > i64::MAX {
            Err(ScanError::NumberTooLarge(line as usize))
        } else {
            Ok((Some((TokenKind::Number(v), line)), j, line))
        }
    } else if c == '"' {
        let j = quote_end(s, i + 1);
        if j >= s.len() {
            Err(ScanError::UnterminatedString(line as usize))
        } else {
            Ok((Some((TokenKind::Str(s.subrange(i + 1, j)), line)), j + 1, line))
        }
    } else {
        Err(ScanError::UnexpectedCharacter(c, line as usize))
    }
}

/// The tokens of `s` from index `i` on, starting at line `line`.
pub open spec fn scan_from(s: Seq<char>, i: int, line: nat) -> Result<Seq<(TokenKind, nat)>, ScanError>
    decreases s.len() - i,
{
    if i < 0 || i >= s.len() {
        Ok(Seq::empty())
    } else {
        let step = step_spec(s, i, line);
        if step is Err {
            Err(step->Err_0)
        } else {
            let j = step->Ok_0.1;
            let l = step->Ok_0.2;
            if j <= i || j > s.len() {
                Ok(Seq::empty())
            } else {
                let rest = scan_from(s, j, l);
                if step->Ok_0.0 is Some {
                    prefix_tokens(seq![step->Ok_0.0.unwrap()], rest)
                } else {
                    rest
                }
            }
        }
    }
}

/// The whole token stream of a source text, lines counted from one.
pub open spec fn scan_spec(s: Seq<char>) -> Result<Seq<(TokenKind, nat)>, ScanError> {
    scan_from(s, 0, 1)
}

pub open spec fn prefix_tokens(
    p: Seq<(TokenKind, nat)>,
    r: Result<Seq<(TokenKind, nat)>, ScanError>,
) -> Result<Seq<(TokenKind, nat)>, ScanError> {
    match r {
        Ok(ts) => Ok(p + ts),
        Err(e) => Err(e),
    }
}

pub open spec fn tokens_model(ts: Seq<Token>) -> Seq<(TokenKind, nat)> {
    ts.map_values(|t: Token| token_model(t))
}

proof fn lemma_word_end(s: Seq<char>, i: int)
    requires
        0 <= i <= s.len(),
    ensures
        i <= word_end(s, i) <= s.len(),
        forall|k: int| i <= k < word_end(s, i) ==> is_word_char(#[trigger] s[k]),
        word_end(s, i) < s.len() ==> !is_word_char(s[word_end(s, i)]),
    decreases s.len() - i,
{
    if i < s.len() && is_word_char(s[i]) {
        lemma_word_end(s, i + 1);
    }
}

proof fn lemma_digits_end(s: Seq<char>, i: int)
    requires
        0 <= i <= s.len(),
    ensures
        i <= digits_end(s, i) <= s.len(),
        forall|k: int| i <= k < digits_end(s, i) ==> is_digit(#[trigger] s[k]),
        digits_end(s, i) < s.len() ==> !is_digit(s[digits_end(s, i)]),
    decreases s.len() - i,
{
    if i < s.len() && is_digit(s[i]) {
        lemma_digits_end(s, i + 1);
    }
}

proof fn lemma_quote_end(s: Seq<char>, i: int)
    requires
        0 <= i <= s.len(),
    ensures
        i <= quote_end(s, i) <= s.len(),
        quote_end(s, i) < s.len() ==> s[quote_end(s, i)] == '"',
    decreases s.len() - i,
{
    if i < s.len() && s[i] != '"' {
        lemma_quote_end(s, i + 1);
    }
}

proof fn lemma_digits_nonneg(s: Seq<char>, i: int, j: int)
    requires
        0 <= i,
        j <= s.len(),
        forall|k: int| i <= k < j ==> is_digit(#[trigger] s[k]),
    ensures
        digits_value(s, i, j) >= 0,
    decreases j - i,
{
    if j > i {
        lemma_digits_nonneg(s, i, j - 1);
    }
}

/// The character at index `i`; when the text is ASCII this takes constant time.
fn char_at(s: &str, ascii: bool, i: usize) -> (r: char)
    requires
        i < s@.len(),
        ascii ==> s.is_ascii(),
    ensures
        r == s@[i as int],
{
    if ascii {
        let b = s.get_ascii(i);
        proof {
            assert('\0' <= s@[i as int] <= '\u{7f}');
        }
        b as char
    } else {
        s.get_char(i)
    }
}

/// The text `s[from..to]`.
fn slice_text(s: &str, ascii: bool, from: usize, to: usize) -> (r: String)
    requires
        from <= to <= s@.len(),
        ascii ==> s.is_ascii(),
    ensures
        r@ == s@.subrange(from as int, to as int),
{
    if ascii {
        s.substring_ascii(from, to).to_owned()
    } else {
        s.substring_char(from, to).to_owned()
    }
}

/// Does the character run `s[from..to]` spell `w`?
fn spells(s: &str, ascii: bool, from: usize, to: usize, w: &[char]) -> (r: bool)
    requires
        ascii ==> s.is_ascii(),
        from <= to <= s@.len(),
    ensures
        r == (s@.subrange(from as int, to as int) == w@),
{
    if to - from != w.len() {
        proof {
            assert(s@.subrange(from as int, to as int).len() != w@.len());
        }
        return false;
    }
    let mut k: usize = 0;
    while k < w.len()
        invariant
            from <= to <= s@.len(),
            to - from == w@.len(),
            ascii ==> s.is_ascii(),
            k <= w@.len(),
            forall|m: int| 0 <= m < k ==> s@[from + m] == w@[m],
        decreases w.len() - k,
    {
        if char_at(s, ascii, from + k) != w[k] {
            proof {
                assert(s@.subrange(from as int, to as int)[k as int] != w@[k as int]);
            }
            return false;
        }
        k = k + 1;
    }
    proof {
        assert(s@.subrange(from as int, to as int) =~= w@);
    }
    true
}

/// The token for the word `s[from..to]`: a keyword or an identifier.
fn word(s: &str, ascii: bool, from: usize, to: usize) -> (r: TokenType)
    requires
        ascii ==> s.is_ascii(),
        from <= to <= s@.len(),
    ensures
        r@ == word_kind(s@.subrange(from as int, to as int)),
{
    let ghost w = s@.subrange(from as int, to as int);
    proof {
        reveal_strlit("var");
    }
    if spells(s, ascii, from, to, &['v', 'a', 'r']) {
        TokenType::Var
    } else if spells(s, ascii, from, to, &['i', 'f']) {
        TokenType::If
    } else if spells(s, ascii, from, to, &['e', 'l', 's', 'e']) {
        TokenType::Else
    } else if spells(s, ascii, from, to, &['f', 'n']) {
        TokenType::Func
    } else if spells(s, ascii, from, to, &['w', 'h', 'i', 'l', 'e']) {
        TokenType::While
    } else if spells(s, ascii, from, to, &['t', 'r', 'u', 'e']) {
        TokenType::Boolean(true)
    } else if spells(s, ascii, from, to, &['f', 'a', 'l', 's', 'e']) {
        TokenType::Boolean(false)
    } else if spells(s, ascii, from, to, &['n', 'u', 'l', 'l']) {
        TokenType::Null
    } else if spells(s, ascii, from, to, &['r', 'e', 't', 'u', 'r', 'n']) {
        TokenType::Return
    } else {
        TokenType::Identifier(slice_text(s, ascii, from, to))
    }
}

fn single(c: char) -> (r: Option<TokenType>)
    ensures
        r is Some == single_kind(c) is Some,
        r is Some ==> r.unwrap()@ == single_kind(c).unwrap(),
{
    match c {
        '+' => Some(TokenType::Plus),
        '-' => Some(TokenType::Minus),
        '*' => Some(TokenType::Star),
        '/' => Some(TokenType::Slash),
        '(' => Some(TokenType::LeftParen),
        ')' => Some(TokenType::RightParen),
        '{' => Some(TokenType::LeftBracket),
        '}' => Some(TokenType::RightBracket),
        '[' => Some(TokenType::LeftBrace),
        ']' => Some(TokenType::RightBrace),
        ',' => Some(TokenType::Comma),
        '.' => Some(TokenType::Dot),
        _ => None,
    }
}

fn pair(c: char) -> (r: Option<(char, TokenType, TokenType)>)
    ensures
        r is Some == pair_kinds(c) is Some,
        r is Some ==> ({
            let (a, b, d) = r.unwrap();
            (a, b@, d@) == pair_kinds(c).unwrap()
        }),
{
    match c {
        '=' => Some(('=', TokenType::Equals, TokenType::Assign)),
        '<' => Some(('=', TokenType::EqLesser, TokenType::Lesser)),
        '>' => Some(('=', TokenType::EqGreater, TokenType::Greater)),
        '!' => Some(('=', TokenType::NotEquals, TokenType::Not)),
        '&' => Some(('&', TokenType::And, TokenType::BitAnd)),
        '|' => Some(('|', TokenType::Or, TokenType::BitOr)),
        _ => None,
    }
}

fn is_word_start_char(c: char) -> (r: bool)
    ensures
        r == is_word_start(c),
{
    ('A' <= c && c <= 'Z') || ('a' <= c && c <= 'z') || c == '_'
}

fn is_digit_char(c: char) -> (r: bool)
    ensures
        r == is_digit(c),
{
    '0' <= c && c <= '9'
}

/// Scans one token, or one blank, starting at index `i` of `s`.
fn next_token(s: &str, ascii: bool, n: usize, i: usize, line: usize) -> (r: Result<(Option<Token>, usize, usize), ScanError>)
    requires
        n == s@.len(),
        ascii ==> s.is_ascii(),
        i < n,
        line <= i + 1,
        n < usize::MAX,
    ensures
        match (r, step_spec(s@, i as int, line as nat)) {
            (Ok((t, j, l)), Ok((mt, mj, ml))) => j == mj && l == ml && i < j <= n && l <= j + 1 && (match (t, mt) {
                (Some(tok), Some(m)) => token_model(tok) == m,
                (None, None) => true,
                _ => false,
            }),
            (Err(e), Err(me)) => e == me,
            _ => false,
        },
{
    let c = char_at(s, ascii, i);
    if c == ' ' || c == '\r' || c == '\t' {
        return Ok((None, i + 1, line));
    }
    if c == '\n' {
        return Ok((None, i + 1, line + 1));
    }
    if let Some(t) = single(c) {
        return Ok((Some(Token { token_type: t, line, col: 0 }), i + 1, line));
    }
    if let Some((second, long, short)) = pair(c) {
        if i + 1 < n && char_at(s, ascii, i + 1) == second {
            return Ok((Some(Token { token_type: long, line, col: 0 }), i + 2, line));
        } else {
            return Ok((Some(Token { token_type: short, line, col: 0 }), i + 1, line));
        }
    }
    if is_word_start_char(c) {
        let mut j: usize = i + 1;
        proof {
            lemma_word_end(s@, i + 1);
        }
        while j < n && is_word_char_at(s, ascii, j)
            invariant
                n == s@.len(),
                ascii ==> s.is_ascii(),
                i < j <= n,
                word_end(s@, j as int) == word_end(s@, i + 1),
            decreases n - j,
        {
            j = j + 1;
        }
        let t = word(s, ascii, i, j);
        return Ok((Some(Token { token_type: t, line, col: 0 }), j, line));
    }
    if is_digit_char(c) {
        let mut j: usize = i;
        let mut v: i64 = 0;
        let mut too_big = false;
        proof {
            lemma_digits_end(s@, i + 1);
        }
        while j < n && is_digit_char(char_at(s, ascii, j))
            invariant
                n == s@.len(),
                ascii ==> s.is_ascii(),
                i <= j <= n,
                j == i || digits_end(s@, j as int) == digits_end(s@, i + 1),
                j == i ==> is_digit(s@[i as int]),
                forall|k: int| i <= k < j ==> is_digit(#[trigger] s@[k]),
                too_big == (digits_value(s@, i as int, j as int) > i64::MAX),
                !too_big ==> v == digits_value(s@, i as int, j as int),
            decreases n - j,
        {
            let d = (char_at(s, ascii, j) as u32 - '0' as u32) as i64;
            proof {
                lemma_digits_nonneg(s@, i as int, j as int);
                assert(digits_value(s@, i as int, j + 1) == digits_value(s@, i as int, j as int) * 10 + d);
            }
            if !too_big {
                if v > (i64::MAX - d) / 10 {
                    too_big = true;
                    proof {
                        assert(v * 10 + d > i64::MAX) by (nonlinear_arith)
                            requires v > (i64::MAX - d) / 10, 0 <= d <= 9;
                    }
                } else {
                    proof {
                        assert(v * 10 + d <= i64::MAX) by (nonlinear_arith)
                            requires v <= (i64::MAX - d) / 10, 0 <= d <= 9, v >= 0;
                    }
                    v = v * 10 + d;
                }
            } else {
                proof {
                    let dv = digits_value(s@, i as int, j as int);
                    assert(dv * 10 + d > i64::MAX) by (nonlinear_arith)
                        requires dv > i64::MAX, 0 <= d <= 9;
                }
            }
            j = j + 1;
        }
        if too_big {
            return Err(ScanError::NumberTooLarge(line));
        }
        return Ok((Some(Token { token_type: TokenType::Number(v), line, col: 0 }), j, line));
    }
    if c == '"' {
        let mut j: usize = i + 1;
        proof {
            lemma_quote_end(s@, i + 1);
        }
        while j < n && char_at(s, ascii, j) != '"'
            invariant
                n == s@.len(),
                ascii ==> s.is_ascii(),
                i < j <= n,
                quote_end(s@, j as int) == quote_end(s@, i + 1),
            decreases n - j,
        {
            j = j + 1;
        }
        if j >= n {
            return Err(ScanError::UnterminatedString(line));
        }
        let text = slice_text(s, ascii, i + 1, j);
        return Ok((Some(Token { token_type: TokenType::Str(text), line, col: 0 }), j + 1, line));
    }
    Err(ScanError::UnexpectedCharacter(c, line))
}

fn is_word_char_at(s: &str, ascii: bool, j: usize) -> (r: bool)
    requires
        j < s@.len(),
        ascii ==> s.is_ascii(),
    ensures
        r == is_word_char(s@[j as int]),
{
    let c = char_at(s, ascii, j);
    is_word_start_char(c) || is_digit_char(c)
}

proof fn lemma_prefix_push(p: Seq<(TokenKind, nat)>, t: (TokenKind, nat), r: Result<Seq<(TokenKind, nat)>, ScanError>)
    ensures
        prefix_tokens(p, prefix_tokens(seq![t], r)) == prefix_tokens(p.push(t), r),
{
    if r is Ok {
        assert(p + (seq![t] + r->Ok_0) =~= p.push(t) + r->Ok_0);
    }
}

/// Turns source text into tokens.
pub struct Scanner {
    input: String,
}

impl Scanner {
    pub closed spec fn source(&self) -> Seq<char> {
        self.input@
    }

    pub fn new(string: String) -> (r: Scanner)
        ensures
            r.source() == string@,
    {
        Scanner { input: string }
    }

    /// All tokens of the source, or the first error.
    pub fn scan(self) -> (r: Result<Vec<Token>, ScanError>)
        requires
            self.source().len() < usize::MAX,
        ensures
            match (r, scan_spec(self.source())) {
                (Ok(ts), Ok(m)) => tokens_model(ts@) == m,
                (Err(e), Err(me)) => e == me,
                _ => false,
            },
    {
        let s = self.input.as_str();
        let n = s.unicode_len();
        let ascii = s.is_ascii();
        let mut tokens: Vec<Token> = Vec::new();
        let mut i: usize = 0;
        let mut line: usize = 1;
        while i < n
            invariant
                n == s@.len(),
                s@ == self.source(),
                n < usize::MAX,
                ascii ==> s.is_ascii(),
                i <= n,
                line <= i + 1,
                prefix_tokens(tokens_model(tokens@), scan_from(s@, i as int, line as nat))
                    == scan_spec(s@),
            decreases n - i,
        {
            let ghost before = tokens_model(tokens@);
            match next_token(s, ascii, n, i, line) {
                Err(e) => {
                    return Err(e);
                }
                Ok((t, j, l)) => {
                    match t {
                        Some(tok) => {
                            proof {
                                lemma_prefix_push(before, token_model(tok), scan_from(s@, j as int, l as nat));
                            }
                            tokens.push(tok);
                            proof {
                                assert(tokens_model(tokens@) =~= before.push(token_model(tokens@.last())));
                            }
                        }
                        None => {}
                    }
                    i = j;
                    line = l;
                }
            }
        }
        proof {
            assert(tokens_model(tokens@) + Seq::<(TokenKind, nat)>::empty() =~= tokens_model(tokens@));
        }
        Ok(tokens)
    }
}

} // verus!

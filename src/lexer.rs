use vstd::prelude::*;
use crate::error::CompilerError;
use crate::span::Span;
use crate::text::{chars_of, string_of};
use crate::token::{Token, TokenWithSpan};

verus! {

pub open spec fn is_space(c: char) -> bool {
    c == ' ' || c == '\t' || c == '\n' || c == '\r'
}

pub open spec fn is_digit(c: char) -> bool {
    '0' <= c && c <= '9'
}

pub open spec fn is_ident_start(c: char) -> bool {
    ('a' <= c && c <= 'z') || ('A' <= c && c <= 'Z') || c == '_'
}

pub open spec fn is_ident_char(c: char) -> bool {
    is_ident_start(c) || is_digit(c)
}

/// Whether the character after position `i` is `c`.
pub open spec fn next_is(s: Seq<char>, i: int, c: char) -> bool {
    0 <= i + 1 < s.len() && s[i + 1] == c
}

/// The number of digits in the run that starts at `j`.
pub open spec fn digit_run(s: Seq<char>, j: int) -> nat
    decreases s.len() - j,
{
    if 0 <= j < s.len() && is_digit(s[j]) {
        1 + digit_run(s, j + 1)
    } else {
        0
    }
}

/// The number of identifier characters in the run that starts at `j`.
pub open spec fn ident_run(s: Seq<char>, j: int) -> nat
    decreases s.len() - j,
{
    if 0 <= j < s.len() && is_ident_char(s[j]) {
        1 + ident_run(s, j + 1)
    } else {
        0
    }
}

/// The number of characters from `j` up to the next line feed or the end.
pub open spec fn line_run(s: Seq<char>, j: int) -> nat
    decreases s.len() - j,
{
    if 0 <= j < s.len() && s[j] != '\n' {
        1 + line_run(s, j + 1)
    } else {
        0
    }
}

/// The distance from `j` to the next `"`, if there is one.
pub open spec fn quote_run(s: Seq<char>, j: int) -> Option<nat>
    decreases s.len() - j,
{
    if 0 <= j < s.len() {
        if s[j] == '"' {
            Some(0)
        } else {
            match quote_run(s, j + 1) {
                Some(n) => Some(n + 1),
                None => None,
            }
        }
    } else {
        None
    }
}

/// The length from `j` through the next `*/`, if there is one.
pub open spec fn comment_run(s: Seq<char>, j: int) -> Option<nat>
    decreases s.len() - j,
{
    if 0 <= j && j + 1 < s.len() {
        if s[j] == '*' && s[j + 1] == '/' {
            Some(2)
        } else {
            match comment_run(s, j + 1) {
                Some(n) => Some(n + 1),
                None => None,
            }
        }
    } else {
        None
    }
}

/// The token kind of a word made of identifier characters.
pub open spec fn keyword_of(w: Seq<char>) -> Token {
    if w == "fn"@ { Token::Fn }
    else if w == "let"@ { Token::Let }
    else if w == "mut"@ { Token::Mut }
    else if w == "if"@ { Token::If }
    else if w == "else"@ { Token::Else }
    else if w == "while"@ { Token::While }
    else if w == "for"@ { Token::For }
    else if w == "in"@ { Token::In }
    else if w == "return"@ { Token::Return }
    else if w == "true"@ { Token::True }
    else if w == "false"@ { Token::False }
    else if w == "i32"@ { Token::I32 }
    else if w == "i64"@ { Token::I64 }
    else if w == "i8"@ { Token::I8 }
    else if w == "i16"@ { Token::I16 }
    else if w == "i128"@ { Token::I128 }
    else if w == "f32"@ { Token::F32 }
    else if w == "String"@ { Token::StringType }
    else if w == "f64"@ { Token::F64 }
    else if w == "bool"@ { Token::Bool }
    else if w == "str"@ { Token::Str }
    else { Token::Ident }
}

/// Why scanning stopped.
#[derive(Debug, Clone, Copy, PartialEq, Eq, Structural)]
pub enum LexFault {
    UnexpectedChar,
    UnterminatedString,
    UnterminatedComment,
}

/// What one scanning step finds at a position: trivia to skip up to an end,
/// a token ending at an end, or a fault.
pub enum Scan {
    Skip(int),
    Emit(Token, int),
    Fail(LexFault),
}

/// A token of one or two characters: `two` when the next character is `second`, else `one`.
pub open spec fn pair_or(s: Seq<char>, i: int, second: char, two: Token, one: Token) -> Scan {
    if next_is(s, i, second) {
        Scan::Emit(two, i + 2)
    } else {
        Scan::Emit(one, i + 1)
    }
}

/// One scanning step at position `i` (maximal munch with one character of lookahead).
pub open spec fn scan(s: Seq<char>, i: int) -> Scan {
    let c = s[i];
    if is_space(c) {
        Scan::Skip(i + 1)
    } else if c == '/' && next_is(s, i, '/') {
        Scan::Skip(i + 2 + line_run(s, i + 2))
    } else if c == '/' && next_is(s, i, '*') {
        match comment_run(s, i + 2) {
            Some(n) => Scan::Skip(i + 2 + n),
            None => Scan::Fail(LexFault::UnterminatedComment),
        }
    } else if c == '"' {
        match quote_run(s, i + 1) {
            Some(n) => Scan::Emit(Token::StringLiteral, i + 2 + n),
            None => Scan::Fail(LexFault::UnterminatedString),
        }
    } else if is_digit(c) {
        let j = i + 1 + digit_run(s, i + 1);
        if j + 1 < s.len() && s[j] == '.' && is_digit(s[j + 1]) {
            Scan::Emit(Token::FloatLiteral, j + 1 + digit_run(s, j + 1))
        } else {
            Scan::Emit(Token::IntLiteral, j)
        }
    } else if is_ident_start(c) {
        let j = i + 1 + ident_run(s, i + 1);
        let w = s.subrange(i, j);
        if w == "println"@ && j < s.len() && s[j] == '!' {
            Scan::Emit(Token::PrintlnMacro, j + 1)
        } else {
            Scan::Emit(keyword_of(w), j)
        }
    } else if c == '-' {
        pair_or(s, i, '>', Token::Arrow, Token::Minus)
    } else if c == '=' {
        pair_or(s, i, '=', Token::Eq, Token::Assign)
    } else if c == '!' {
        if next_is(s, i, '=') {
            Scan::Emit(Token::NotEq, i + 2)
        } else {
            Scan::Fail(LexFault::UnexpectedChar)
        }
    } else if c == '<' {
        pair_or(s, i, '=', Token::LtEq, Token::Lt)
    } else if c == '>' {
        pair_or(s, i, '=', Token::GtEq, Token::Gt)
    } else if c == ':' {
        pair_or(s, i, ':', Token::DoubleColon, Token::Colon)
    } else if c == '.' {
        pair_or(s, i, '.', Token::DotDot, Token::Dot)
    } else if c == '&' && next_is(s, i, '&') {
        Scan::Emit(Token::And, i + 2)
    } else if c == '|' && next_is(s, i, '|') {
        Scan::Emit(Token::Or, i + 2)
    } else {
        match single_char_token(c) {
            Some(t) => Scan::Emit(t, i + 1),
            None => Scan::Fail(LexFault::UnexpectedChar),
        }
    }
}

pub open spec fn single_char_token(c: char) -> Option<Token> {
    if c == '+' { Some(Token::Plus) }
    else if c == '*' { Some(Token::Star) }
    else if c == '/' { Some(Token::Slash) }
    else if c == '%' { Some(Token::Percent) }
    else if c == '(' { Some(Token::LParen) }
    else if c == ')' { Some(Token::RParen) }
    else if c == '{' { Some(Token::LBrace) }
    else if c == '}' { Some(Token::RBrace) }
    else if c == '[' { Some(Token::LBracket) }
    else if c == ']' { Some(Token::RBracket) }
    else if c == ';' { Some(Token::Semicolon) }
    else if c == ',' { Some(Token::Comma) }
    else { None }
}

proof fn lemma_runs_bounded(s: Seq<char>, j: int)
    requires
        0 <= j <= s.len(),
    ensures
        j + digit_run(s, j) <= s.len(),
        j + ident_run(s, j) <= s.len(),
        j + line_run(s, j) <= s.len(),
        quote_run(s, j) matches Some(n) ==> j + n < s.len(),
        comment_run(s, j) matches Some(n) ==> j + n <= s.len(),
    decreases s.len() - j,
{
    if j < s.len() {
        lemma_runs_bounded(s, j + 1);
    }
}

/// Each step moves forward and stays within the text.
pub proof fn lemma_scan_advances(s: Seq<char>, i: int)
    requires
        0 <= i < s.len(),
    ensures
        scan(s, i) matches Scan::Skip(j) ==> i < j <= s.len(),
        scan(s, i) matches Scan::Emit(_, j) ==> i < j <= s.len(),
{
    lemma_runs_bounded(s, i + 1);
    if i + 2 <= s.len() {
        lemma_runs_bounded(s, i + 2);
    }
    let j = i + 1 + digit_run(s, i + 1);
    if j + 1 < s.len() {
        lemma_runs_bounded(s, j + 1);
    }
}

/// The tokens of `s` from position `i` on, as (kind, start, end), or the
/// position and fault of the first lexical error.
pub open spec fn lex_from(s: Seq<char>, i: int) -> Result<Seq<(Token, int, int)>, (int, LexFault)>
    decreases s.len() - i,
{
    if 0 <= i < s.len() {
        proof {
            lemma_scan_advances(s, i);
        }
        match scan(s, i) {
            Scan::Skip(j) => lex_from(s, j),
            Scan::Emit(t, j) => match lex_from(s, j) {
                Ok(rest) => Ok(seq![(t, i, j)] + rest),
                Err(e) => Err(e),
            },
            Scan::Fail(f) => Err((i, f)),
        }
    } else {
        Ok(Seq::empty())
    }
}

/// A `!` that the scanner reaches and that does not start `!=` ends
/// tokenization with an error: a lone `!` is never a token.
pub proof fn lemma_bare_bang_rejected(s: Seq<char>, i: int)
    requires
        0 <= i < s.len(),
        s[i] == '!',
        !next_is(s, i, '='),
    ensures
        scan(s, i) == Scan::Fail(LexFault::UnexpectedChar),
        lex_from(s, i) == Err::<Seq<(Token, int, int)>, (int, LexFault)>((i, LexFault::UnexpectedChar)),
{
}

/// A text made of `!` and what follows it, with no `=` next, does not tokenize.
pub proof fn lemma_leading_bang_rejected(s: Seq<char>)
    requires
        s.len() > 0,
        s[0] == '!',
        !next_is(s, 0, '='),
    ensures
        lex(s) is Err,
{
    lemma_bare_bang_rejected(s, 0);
}

/// The ranges of `ts` start at `lo` or later, are ranges, and follow one another.
pub open spec fn ranges_in_order(ts: Seq<(Token, int, int)>, lo: int) -> bool {
    forall|k: int| 0 <= k < ts.len() ==> lo <= #[trigger] ts[k].1 && ts[k].1 <= ts[k].2
        && (k + 1 < ts.len() ==> ts[k].2 <= ts[k + 1].1)
}

/// The tokens found from position `i` on come in order, after `i`.
pub proof fn lemma_lex_in_order(s: Seq<char>, i: int)
    requires
        0 <= i,
    ensures
        lex_from(s, i) matches Ok(ts) ==> ranges_in_order(ts, i),
    decreases s.len() - i,
{
    if 0 <= i < s.len() {
        lemma_scan_advances(s, i);
        match scan(s, i) {
            Scan::Skip(j) => {
                lemma_lex_in_order(s, j);
            },
            Scan::Emit(t, j) => {
                lemma_lex_in_order(s, j);
                match lex_from(s, j) {
                    Ok(rest) => {
                        let ts = seq![(t, i, j)] + rest;
                        assert forall|k: int| 0 <= k < ts.len() implies i <= #[trigger] ts[k].1 && ts[k].1 <= ts[k].2
                            && (k + 1 < ts.len() ==> ts[k].2 <= ts[k + 1].1) by {
                            if k > 0 {
                                assert(ts[k] == rest[k - 1]);
                            }
                            if k + 1 < ts.len() {
                                assert(ts[k + 1] == rest[k]);
                            }
                        }
                    },
                    Err(_) => {},
                }
            },
            Scan::Fail(_) => {},
        }
    }
}

/// The tokens of a whole source text.
pub open spec fn lex(s: Seq<char>) -> Result<Seq<(Token, int, int)>, (int, LexFault)> {
    lex_from(s, 0)
}

/// The spans of the tokens are in order: each ends no earlier than it starts,
/// and the next starts no earlier than it ends.
pub open spec fn spans_in_order(t: Seq<TokenWithSpan>) -> bool {
    forall|k: int| 0 <= k < t.len() ==> #[trigger] t[k].span.0 <= t[k].span.1
        && (k + 1 < t.len() ==> t[k].span.1 <= t[k + 1].span.0)
}

/// `v` holds the tokens `ts` of `s`, each with its span and its text.
pub open spec fn tokens_match(s: Seq<char>, v: Seq<TokenWithSpan>, ts: Seq<(Token, int, int)>) -> bool {
    &&& v.len() == ts.len()
    &&& forall|k: int|
        0 <= k < v.len() ==> {
            &&& #[trigger] v[k].token == ts[k].0
            &&& v[k].span.0 == ts[k].1
            &&& v[k].span.1 == ts[k].2
            &&& v[k].text@ == s.subrange(ts[k].1, ts[k].2)
        }
}

pub open spec fn fault_message(f: LexFault) -> Seq<char> {
    match f {
        LexFault::UnexpectedChar => "unexpected character"@,
        LexFault::UnterminatedString => "unterminated string literal"@,
        LexFault::UnterminatedComment => "unterminated block comment"@,
    }
}

/// What `tokenize` returns for the source `s`: the tokens of `lex(s)`, or a
/// lexer error on the one character where the first fault lies.
pub open spec fn tokenize_result(s: Seq<char>, r: Result<Vec<TokenWithSpan>, CompilerError>) -> bool {
    match lex(s) {
        Ok(ts) => r matches Ok(v) && tokens_match(s, v@, ts),
        Err((p, f)) => r matches Err(CompilerError::LexerError { span, message })
            && span.start == p && span.end == p + 1 && message@ == fault_message(f),
    }
}

/// Two tokenizations of the same text agree: same kinds, spans and texts,
/// or the same error.
pub proof fn lemma_tokenize_deterministic(
    s: Seq<char>,
    r1: Result<Vec<TokenWithSpan>, CompilerError>,
    r2: Result<Vec<TokenWithSpan>, CompilerError>,
)
    requires
        tokenize_result(s, r1),
        tokenize_result(s, r2),
    ensures
        r1 is Ok <==> r2 is Ok,
        r1 is Ok ==> {
            let v1 = r1->Ok_0@;
            let v2 = r2->Ok_0@;
            &&& v1.len() == v2.len()
            &&& forall|k: int|
                0 <= k < v1.len() ==> #[trigger] v1[k].token == v2[k].token && v1[k].span == v2[k].span
                    && v1[k].text@ == v2[k].text@
        },
        r1 is Err ==> r1->Err_0.span_view() == r2->Err_0.span_view()
            && r1->Err_0.message_view() == r2->Err_0.message_view(),
{
    match lex(s) {
        Ok(ts) => {
            let v1 = r1->Ok_0@;
            let v2 = r2->Ok_0@;
            assert forall|k: int| 0 <= k < v1.len() implies #[trigger] v1[k].token == v2[k].token
                && v1[k].span == v2[k].span && v1[k].text@ == v2[k].text@ by {
                assert(v2[k].token == ts[k].0);
            }
        },
        Err(_) => {},
    }
}

fn is_space_char(c: char) -> (r: bool)
    ensures
        r == is_space(c),
{
    c == ' ' || c == '\t' || c == '\n' || c == '\r'
}

fn is_digit_char(c: char) -> (r: bool)
    ensures
        r == is_digit(c),
{
    '0' <= c && c <= '9'
}

fn is_ident_start_char(c: char) -> (r: bool)
    ensures
        r == is_ident_start(c),
{
    ('a' <= c && c <= 'z') || ('A' <= c && c <= 'Z') || c == '_'
}

fn next_char_is(chars: &Vec<char>, i: usize, c: char) -> (r: bool)
    requires
        i < chars.len(),
    ensures
        r == next_is(chars@, i as int, c),
{
    i + 1 < chars.len() && chars[i + 1] == c
}

fn digit_run_at(chars: &Vec<char>, j: usize) -> (n: usize)
    requires
        j <= chars.len(),
    ensures
        n == digit_run(chars@, j as int),
        j + n <= chars.len(),
{
    let mut k = j;
    while k < chars.len() && is_digit_char(chars[k])
        invariant
            j <= k <= chars.len(),
            digit_run(chars@, j as int) == (k - j) + digit_run(chars@, k as int),
        decreases chars.len() - k,
    {
        k = k + 1;
    }
    k - j
}

fn ident_run_at(chars: &Vec<char>, j: usize) -> (n: usize)
    requires
        j <= chars.len(),
    ensures
        n == ident_run(chars@, j as int),
        j + n <= chars.len(),
{
    let mut k = j;
    while k < chars.len() && (is_ident_start_char(chars[k]) || is_digit_char(chars[k]))
        invariant
            j <= k <= chars.len(),
            ident_run(chars@, j as int) == (k - j) + ident_run(chars@, k as int),
        decreases chars.len() - k,
    {
        k = k + 1;
    }
    k - j
}

fn line_run_at(chars: &Vec<char>, j: usize) -> (n: usize)
    requires
        j <= chars.len(),
    ensures
        n == line_run(chars@, j as int),
        j + n <= chars.len(),
{
    let mut k = j;
    while k < chars.len() && chars[k] != '\n'
        invariant
            j <= k <= chars.len(),
            line_run(chars@, j as int) == (k - j) + line_run(chars@, k as int),
        decreases chars.len() - k,
    {
        k = k + 1;
    }
    k - j
}

fn quote_run_at(chars: &Vec<char>, j: usize) -> (r: Option<usize>)
    requires
        j <= chars.len(),
    ensures
        match quote_run(chars@, j as int) {
            Some(n) => r == Some(n as usize) && j + n < chars.len(),
            None => r is None,
        },
{
    let mut k = j;
    while k < chars.len() && chars[k] != '"'
        invariant
            j <= k <= chars.len(),
            quote_run(chars@, j as int) == (match quote_run(chars@, k as int) {
                Some(n) => Some(n + (k - j) as nat),
                None => None,
            }),
        decreases chars.len() - k,
    {
        k = k + 1;
    }
    if k < chars.len() {
        Some(k - j)
    } else {
        None
    }
}

fn comment_run_at(chars: &Vec<char>, j: usize) -> (r: Option<usize>)
    requires
        j <= chars.len(),
    ensures
        match comment_run(chars@, j as int) {
            Some(n) => r == Some(n as usize) && j + n <= chars.len(),
            None => r is None,
        },
{
    let mut k = j;
    while k < chars.len() && k + 1 < chars.len() && !(chars[k] == '*' && chars[k + 1] == '/')
        invariant
            j <= k <= chars.len(),
            comment_run(chars@, j as int) == (match comment_run(chars@, k as int) {
                Some(n) => Some(n + (k - j) as nat),
                None => None,
            }),
        decreases chars.len() - k,
    {
        k = k + 1;
    }
    if k < chars.len() && k + 1 < chars.len() {
        Some(k - j + 2)
    } else {
        None
    }
}

/// Whether `chars[start..end]` spells `k`.
fn word_is(chars: &Vec<char>, start: usize, end: usize, k: &str) -> (r: bool)
    requires
        start <= end <= chars.len(),
    ensures
        r == (chars@.subrange(start as int, end as int) == k@),
{
    let w = Ghost(chars@.subrange(start as int, end as int));
    let n = k.unicode_len();
    if n != end - start {
        return false;
    }
    let mut i: usize = 0;
    while i < n
        invariant
            n == k@.len(),
            n == end - start,
            start <= end <= chars.len(),
            w@ == chars@.subrange(start as int, end as int),
            i <= n,
            forall|m: int| 0 <= m < i ==> w@[m] == k@[m],
        decreases n - i,
    {
        if chars[start + i] != k.get_char(i) {
            assert(w@[i as int] != k@[i as int]);
            return false;
        }
        i = i + 1;
    }
    assert(w@ =~= k@);
    true
}

fn keyword_at(chars: &Vec<char>, start: usize, end: usize) -> (t: Token)
    requires
        start <= end <= chars.len(),
    ensures
        t == keyword_of(chars@.subrange(start as int, end as int)),
{
    if word_is(chars, start, end, "fn") { Token::Fn }
    else if word_is(chars, start, end, "let") { Token::Let }
    else if word_is(chars, start, end, "mut") { Token::Mut }
    else if word_is(chars, start, end, "if") { Token::If }
    else if word_is(chars, start, end, "else") { Token::Else }
    else if word_is(chars, start, end, "while") { Token::While }
    else if word_is(chars, start, end, "for") { Token::For }
    else if word_is(chars, start, end, "in") { Token::In }
    else if word_is(chars, start, end, "return") { Token::Return }
    else if word_is(chars, start, end, "true") { Token::True }
    else if word_is(chars, start, end, "false") { Token::False }
    else if word_is(chars, start, end, "i32") { Token::I32 }
    else if word_is(chars, start, end, "i64") { Token::I64 }
    else if word_is(chars, start, end, "i8") { Token::I8 }
    else if word_is(chars, start, end, "i16") { Token::I16 }
    else if word_is(chars, start, end, "i128") { Token::I128 }
    else if word_is(chars, start, end, "f32") { Token::F32 }
    else if word_is(chars, start, end, "String") { Token::StringType }
    else if word_is(chars, start, end, "f64") { Token::F64 }
    else if word_is(chars, start, end, "bool") { Token::Bool }
    else if word_is(chars, start, end, "str") { Token::Str }
    else { Token::Ident }
}

fn single_char_token_of(c: char) -> (r: Option<Token>)
    ensures
        r == single_char_token(c),
{
    if c == '+' { Some(Token::Plus) }
    else if c == '*' { Some(Token::Star) }
    else if c == '/' { Some(Token::Slash) }
    else if c == '%' { Some(Token::Percent) }
    else if c == '(' { Some(Token::LParen) }
    else if c == ')' { Some(Token::RParen) }
    else if c == '{' { Some(Token::LBrace) }
    else if c == '}' { Some(Token::RBrace) }
    else if c == '[' { Some(Token::LBracket) }
    else if c == ']' { Some(Token::RBracket) }
    else if c == ';' { Some(Token::Semicolon) }
    else if c == ',' { Some(Token::Comma) }
    else { None }
}

/// The executable form of one scanning step.
enum Step {
    Skip(usize),
    Emit(Token, usize),
    Fail(LexFault),
}

spec fn step_is(st: Step, sc: Scan) -> bool {
    match (st, sc) {
        (Step::Skip(a), Scan::Skip(b)) => a == b,
        (Step::Emit(t, a), Scan::Emit(u, b)) => t == u && a == b,
        (Step::Fail(f), Scan::Fail(g)) => f == g,
        _ => false,
    }
}

fn pair_or_at(chars: &Vec<char>, i: usize, second: char, two: Token, one: Token) -> (r: Step)
    requires
        i < chars.len(),
    ensures
        step_is(r, pair_or(chars@, i as int, second, two, one)),
{
    if next_char_is(chars, i, second) {
        Step::Emit(two, i + 2)
    } else {
        Step::Emit(one, i + 1)
    }
}

fn scan_at(chars: &Vec<char>, i: usize) -> (r: Step)
    requires
        i < chars.len(),
    ensures
        step_is(r, scan(chars@, i as int)),
{
    proof {
        lemma_scan_advances(chars@, i as int);
    }
    let c = chars[i];
    if is_space_char(c) {
        Step::Skip(i + 1)
    } else if c == '/' && next_char_is(chars, i, '/') {
        let n = line_run_at(chars, i + 2);
        Step::Skip(i + 2 + n)
    } else if c == '/' && next_char_is(chars, i, '*') {
        match comment_run_at(chars, i + 2) {
            Some(n) => Step::Skip(i + 2 + n),
            None => Step::Fail(LexFault::UnterminatedComment),
        }
    } else if c == '"' {
        match quote_run_at(chars, i + 1) {
            Some(n) => Step::Emit(Token::StringLiteral, i + 2 + n),
            None => Step::Fail(LexFault::UnterminatedString),
        }
    } else if is_digit_char(c) {
        let j = i + 1 + digit_run_at(chars, i + 1);
        if j < chars.len() && j + 1 < chars.len() && chars[j] == '.' && is_digit_char(chars[j + 1]) {
            let m = digit_run_at(chars, j + 1);
            Step::Emit(Token::FloatLiteral, j + 1 + m)
        } else {
            Step::Emit(Token::IntLiteral, j)
        }
    } else if is_ident_start_char(c) {
        let j = i + 1 + ident_run_at(chars, i + 1);
        if word_is(chars, i, j, "println") && j < chars.len() && chars[j] == '!' {
            Step::Emit(Token::PrintlnMacro, j + 1)
        } else {
            Step::Emit(keyword_at(chars, i, j), j)
        }
    } else if c == '-' {
        pair_or_at(chars, i, '>', Token::Arrow, Token::Minus)
    } else if c == '=' {
        pair_or_at(chars, i, '=', Token::Eq, Token::Assign)
    } else if c == '!' {
        if next_char_is(chars, i, '=') {
            Step::Emit(Token::NotEq, i + 2)
        } else {
            Step::Fail(LexFault::UnexpectedChar)
        }
    } else if c == '<' {
        pair_or_at(chars, i, '=', Token::LtEq, Token::Lt)
    } else if c == '>' {
        pair_or_at(chars, i, '=', Token::GtEq, Token::Gt)
    } else if c == ':' {
        pair_or_at(chars, i, ':', Token::DoubleColon, Token::Colon)
    } else if c == '.' {
        pair_or_at(chars, i, '.', Token::DotDot, Token::Dot)
    } else if c == '&' && next_char_is(chars, i, '&') {
        Step::Emit(Token::And, i + 2)
    } else if c == '|' && next_char_is(chars, i, '|') {
        Step::Emit(Token::Or, i + 2)
    } else {
        match single_char_token_of(c) {
            Some(t) => Step::Emit(t, i + 1),
            None => Step::Fail(LexFault::UnexpectedChar),
        }
    }
}

fn fault_text(f: LexFault) -> (r: String)
    ensures
        r@ == fault_message(f),
{
    match f {
        LexFault::UnexpectedChar => String::from_str("unexpected character"),
        LexFault::UnterminatedString => String::from_str("unterminated string literal"),
        LexFault::UnterminatedComment => String::from_str("unterminated block comment"),
    }
}

/// `done` followed by whatever `rest` holds.
pub open spec fn glue(
    done: Seq<(Token, int, int)>,
    rest: Result<Seq<(Token, int, int)>, (int, LexFault)>,
) -> Result<Seq<(Token, int, int)>, (int, LexFault)> {
    match rest {
        Ok(r) => Ok(done + r),
        Err(e) => Err(e),
    }
}

pub open spec fn token_model(v: Seq<TokenWithSpan>) -> Seq<(Token, int, int)> {
    v.map_values(|t: TokenWithSpan| (t.token, t.span.0 as int, t.span.1 as int))
}

/// Splits a whole source text into tokens; comments and whitespace are dropped.
/// Fails with a lexer error at the first character that starts no token, or at
/// an unterminated string literal or block comment.
pub fn tokenize(source: &str) -> (r: Result<Vec<TokenWithSpan>, CompilerError>)
    ensures
        tokenize_result(source@, r),
        r matches Ok(v) ==> spans_in_order(v@),
{
    let chars = chars_of(source);
    let ghost s = chars@;
    let mut tokens: Vec<TokenWithSpan> = Vec::new();
    let mut i: usize = 0;
    while i < chars.len()
        invariant
            s == chars@,
            s == source@,
            i <= chars.len(),
            lex(s) == glue(token_model(tokens@), lex_from(s, i as int)),
            forall|k: int|
                0 <= k < tokens.len() ==> #[trigger] tokens@[k].text@ == s.subrange(
                    tokens@[k].span.0 as int,
                    tokens@[k].span.1 as int,
                ),
        decreases chars.len() - i,
    {
        proof {
            lemma_scan_advances(s, i as int);
        }
        match scan_at(&chars, i) {
            Step::Skip(j) => {
                i = j;
            },
            Step::Emit(t, j) => {
                let text = string_of(&chars, i, j);
                let ghost old_tokens = tokens@;
                tokens.push(TokenWithSpan { token: t, span: (i, j), text });
                proof {
                    assert(token_model(tokens@) =~= token_model(old_tokens) + seq![(t, i as int, j as int)]);
                    match lex_from(s, j as int) {
                        Ok(rest) => {
                            assert(token_model(old_tokens) + (seq![(t, i as int, j as int)] + rest)
                                =~= token_model(tokens@) + rest);
                        },
                        Err(_) => {},
                    }
                }
                i = j;
            },
            Step::Fail(f) => {
                let message = fault_text(f);
                return Err(CompilerError::LexerError { span: Span::new(i, i + 1), message });
            },
        }
    }
    proof {
        assert(token_model(tokens@) + Seq::<(Token, int, int)>::empty() =~= token_model(tokens@));
        let ts = token_model(tokens@);
        assert forall|k: int| 0 <= k < tokens.len() implies #[trigger] tokens@[k].token == ts[k].0 by {}
        lemma_lex_in_order(s, 0);
        assert forall|k: int| 0 <= k < tokens.len() implies #[trigger] tokens@[k].span.0 <= tokens@[k].span.1
            && (k + 1 < tokens.len() ==> tokens@[k].span.1 <= tokens@[k + 1].span.0) by {
            assert(ts[k].1 <= ts[k].2);
            if k + 1 < tokens.len() {
                assert(ts[k].2 <= ts[k + 1].1);
            }
        }
    }
    Ok(tokens)
}

/// A lexer over one source text.
pub struct Lexer {
    source: String,
}

impl Lexer {
    pub fn new(source: &str) -> (r: Lexer)
        ensures
            r.source()@ == source@,
    {
        Lexer { source: String::from_str(source) }
    }

    pub closed spec fn source(&self) -> String {
        self.source
    }

    /// All the tokens of the source text, as `tokenize` gives them.
    pub fn tokenize(&mut self) -> (r: Result<Vec<TokenWithSpan>, CompilerError>)
        ensures
            tokenize_result(old(self).source()@, r),
            final(self).source()@ == old(self).source()@,
    {
        tokenize(self.source.as_str())
    }
}

} // verus!

use vstd::prelude::*;
use crate::ast::{
    AssignExpr, BinaryExpr, BinaryOp, Block, Declaration, Expr, ExprStmt, ForStmt, FunctionCall,
    FunctionDecl, Identifier, IfStmt, Literal, Parameter, PrintStmt, Program, ReturnStmt, Stmt, Type,
    UnaryExpr, UnaryOp, VariableDecl, WhileStmt,
};
use crate::error::CompilerError;
use crate::span::Span;
use crate::text::{chars_of, string_of};
use crate::lexer::{lex, spans_in_order, tokenize, tokens_match};
use crate::token::{Token, TokenWithSpan};

verus! {

/// The value of a run of decimal digits.
pub open spec fn digits_value(s: Seq<char>) -> int
    decreases s.len(),
{
    if s.len() == 0 {
        0
    } else {
        digits_value(s.drop_last()) * 10 + (s.last() as int - '0' as int)
    }
}

pub open spec fn all_digits(s: Seq<char>) -> bool {
    forall|k: int| 0 <= k < s.len() ==> '0' <= #[trigger] s[k] && s[k] <= '9'
}

proof fn lemma_digits_value_grows(s: Seq<char>, k: int)
    requires
        all_digits(s),
        0 <= k <= s.len(),
    ensures
        digits_value(s.subrange(0, k)) <= digits_value(s),
        0 <= digits_value(s.subrange(0, k)),
    decreases s.len() - k,
{
    if k < s.len() {
        lemma_digits_value_grows(s, k + 1);
        assert(s.subrange(0, k + 1).drop_last() =~= s.subrange(0, k));
        lemma_digits_value_nonneg(s.subrange(0, k));
    } else {
        assert(s.subrange(0, k) =~= s);
        lemma_digits_value_nonneg(s);
    }
}

proof fn lemma_digits_value_nonneg(s: Seq<char>)
    requires
        all_digits(s),
    ensures
        0 <= digits_value(s),
    decreases s.len(),
{
    if s.len() > 0 {
        lemma_digits_value_nonneg(s.drop_last());
    }
}

/// Reads a decimal integer literal: `Some` of its value when the text is a
/// non-empty run of digits whose value fits in an `i32`, else `None`.
pub fn parse_int(text: &str) -> (r: Option<i32>)
    ensures
        r == (if text@.len() > 0 && all_digits(text@) && digits_value(text@) <= i32::MAX {
            Some(digits_value(text@) as i32)
        } else {
            None
        }),
{
    let chars = chars_of(text);
    let ghost s = chars@;
    if chars.len() == 0 {
        return None;
    }
    let mut k: usize = 0;
    while k < chars.len()
        invariant
            s == chars@,
            s == text@,
            k <= chars.len(),
            forall|m: int| 0 <= m < k ==> '0' <= #[trigger] s[m] && s[m] <= '9',
        decreases chars.len() - k,
    {
        if !('0' <= chars[k] && chars[k] <= '9') {
            assert(!('0' <= s[k as int] && s[k as int] <= '9'));
            return None;
        }
        k = k + 1;
    }
    let mut v: i64 = 0;
    let mut k: usize = 0;
    while k < chars.len()
        invariant
            s == chars@,
            s == text@,
            all_digits(s),
            k <= chars.len(),
            v == digits_value(s.subrange(0, k as int)),
            0 <= v <= i32::MAX,
        decreases chars.len() - k,
    {
        let c = chars[k];
        assert('0' <= s[k as int] && s[k as int] <= '9');
        let d = (c as u32 - '0' as u32) as i64;
        assert(s.subrange(0, k + 1).drop_last() =~= s.subrange(0, k as int));
        assert(s.subrange(0, k + 1).last() == c);
        assert(d == c as int - '0' as int);
        let w = v * 10 + d;
        assert(w == digits_value(s.subrange(0, k + 1)));
        if w > i32::MAX as i64 {
            proof {
                lemma_digits_value_grows(s, k + 1);
            }
            return None;
        }
        v = w;
        k = k + 1;
    }
    assert(s.subrange(0, k as int) =~= s);
    Some(v as i32)
}

/// A recursive-descent parser over a token sequence.
pub struct Parser {
    pub tokens: Vec<TokenWithSpan>,
    pub current: usize,
}

/// The token kind at position `i`, or `Eof` past the end.
pub open spec fn kind_at(toks: Seq<TokenWithSpan>, i: int) -> Token {
    if 0 <= i < toks.len() {
        toks[i].token
    } else {
        Token::Eof
    }
}

impl Parser {
    pub open spec fn wf(&self) -> bool {
        self.current <= self.tokens.len()
    }

    /// The span from the start of token `start` to the end of the last token consumed.
    pub open spec fn span_from(&self, start: int) -> Span {
        Span { start: self.tokens@[start].span.0, end: self.tokens@[self.current - 1].span.1 }
    }

    /// What each parsing step keeps: the tokens, a forward-moving position, and on
    /// success at least one token consumed.
    pub open spec fn step(&self, next: &Parser, ok: bool) -> bool {
        &&& next.tokens@ == self.tokens@
        &&& self.current <= next.current <= next.tokens.len()
        &&& ok ==> self.current < next.current
    }

    pub fn new(tokens: Vec<TokenWithSpan>) -> (r: Parser)
        ensures
            r.tokens@ == tokens@,
            r.current == 0,
            r.wf(),
    {
        Parser { tokens, current: 0 }
    }

    pub fn is_at_end(&self) -> (r: bool)
        requires
            self.wf(),
        ensures
            r == (self.current == self.tokens.len()),
    {
        self.current >= self.tokens.len()
    }

    /// The kind of the current token, `Eof` once all are consumed.
    pub fn peek(&self) -> (r: Token)
        requires
            self.wf(),
        ensures
            r == kind_at(self.tokens@, self.current as int),
    {
        if self.current < self.tokens.len() {
            self.tokens[self.current].token
        } else {
            Token::Eof
        }
    }

    /// The kind of the token just consumed.
    pub fn previous(&self) -> (r: Token)
        requires
            self.wf(),
            self.current > 0,
        ensures
            r == self.tokens@[self.current - 1].token,
    {
        self.tokens[self.current - 1].token
    }

    /// Whether the current token has kind `t` (never at the end).
    pub fn check(&self, t: Token) -> (r: bool)
        requires
            self.wf(),
        ensures
            r == (self.current < self.tokens.len() && self.tokens@[self.current as int].token == t),
    {
        if self.is_at_end() {
            return false;
        }
        self.tokens[self.current].token == t
    }

    /// Moves past the current token, if any, and returns the kind of the last token consumed.
    pub fn advance(&mut self) -> (r: Token)
        requires
            old(self).wf(),
            old(self).current < old(self).tokens.len(),
        ensures
            final(self).tokens@ == old(self).tokens@,
            final(self).current == old(self).current + 1,
            r == old(self).tokens@[old(self).current as int].token,
    {
        self.current = self.current + 1;
        self.tokens[self.current - 1].token
    }

    /// Consumes the current token when it has kind `t`.
    pub fn match_token(&mut self, t: Token) -> (r: bool)
        requires
            old(self).wf(),
        ensures
            final(self).tokens@ == old(self).tokens@,
            r == (old(self).current < old(self).tokens.len()
                && old(self).tokens@[old(self).current as int].token == t),
            final(self).current == (if r { old(self).current + 1 } else { old(self).current as int }),
    {
        if self.check(t) {
            self.advance();
            true
        } else {
            false
        }
    }

    /// Consumes the current token when its kind is one of `ts`.
    pub fn match_any(&mut self, ts: &[Token]) -> (r: bool)
        requires
            old(self).wf(),
        ensures
            final(self).tokens@ == old(self).tokens@,
            r == (old(self).current < old(self).tokens.len()
                && ts@.contains(old(self).tokens@[old(self).current as int].token)),
            final(self).current == (if r { old(self).current + 1 } else { old(self).current as int }),
    {
        let mut k: usize = 0;
        while k < ts.len()
            invariant
                self.tokens@ == old(self).tokens@,
                self.current == old(self).current,
                self.wf(),
                k <= ts.len(),
                forall|m: int| 0 <= m < k ==> !self.check_spec(#[trigger] ts@[m]),
            decreases ts.len() - k,
        {
            if self.check(ts[k]) {
                self.advance();
                return true;
            }
            k = k + 1;
        }
        proof {
            if self.current < self.tokens.len() && ts@.contains(self.tokens@[self.current as int].token) {
                let m = choose|m: int| 0 <= m < ts.len() && ts@[m] == self.tokens@[self.current as int].token;
                assert(!self.check_spec(ts@[m]));
            }
        }
        false
    }

    pub open spec fn check_spec(&self, t: Token) -> bool {
        self.current < self.tokens.len() && self.tokens@[self.current as int].token == t
    }

    /// The span of the current token; past the end, the empty span at the end of the last token.
    pub fn here(&self) -> (r: Span)
        requires
            self.wf(),
        ensures
            r == self.here_spec(),
    {
        if self.current < self.tokens.len() {
            Span::new(self.tokens[self.current].span.0, self.tokens[self.current].span.1)
        } else if self.tokens.len() > 0 {
            let e = self.tokens[self.tokens.len() - 1].span.1;
            Span::new(e, e)
        } else {
            Span::new(0, 0)
        }
    }

    pub open spec fn here_spec(&self) -> Span {
        if self.current < self.tokens.len() {
            Span { start: self.tokens@[self.current as int].span.0, end: self.tokens@[self.current as int].span.1 }
        } else if self.tokens.len() > 0 {
            let e = self.tokens@[self.tokens.len() - 1].span.1;
            Span { start: e, end: e }
        } else {
            Span { start: 0, end: 0 }
        }
    }

    /// A parser error at the current token.
    pub fn error(&self, message: &str) -> (r: CompilerError)
        requires
            self.wf(),
        ensures
            r.is_parser_error(self.here_spec(), message@),
    {
        CompilerError::ParserError { span: self.here(), message: String::from_str(message) }
    }

    /// Consumes a token of kind `t`, or fails with `message` at the current token.
    pub fn consume(&mut self, t: Token, message: &str) -> (r: Result<Span, CompilerError>)
        requires
            old(self).wf(),
        ensures
            final(self).tokens@ == old(self).tokens@,
            r is Ok == old(self).check_spec(t),
            r is Ok ==> final(self).current == old(self).current + 1,
            r matches Ok(sp) ==> sp == old(self).here_spec(),
            r is Err ==> final(self).current == old(self).current
                && r->Err_0.is_parser_error(old(self).here_spec(), message@),
    {
        if self.check(t) {
            let sp = self.here();
            self.advance();
            Ok(sp)
        } else {
            Err(self.error(message))
        }
    }

    fn span_from_exec(&self, start: usize) -> (r: Span)
        requires
            self.wf(),
            start < self.current,
        ensures
            r == self.span_from(start as int),
    {
        Span::new(self.tokens[start].span.0, self.tokens[self.current - 1].span.1)
    }
}


/// An expression tree without its spans: what an expression is.
pub enum ExprView {
    Int(int),
    Float(Seq<char>),
    Bool(bool),
    Str(Seq<char>),
    Name(Seq<char>),
    Binary(BinaryOp, Box<ExprView>, Box<ExprView>),
    Unary(UnaryOp, Box<ExprView>),
    Call(Box<ExprView>, Seq<ExprView>),
    Assign(Box<ExprView>, Box<ExprView>),
}

pub open spec fn expr_view(e: Expr) -> ExprView
    decreases e, 0int,
{
    match e {
        Expr::Literal(Literal::Int(v, _)) => ExprView::Int(v as int),
        Expr::Literal(Literal::Float(t, _)) => ExprView::Float(t@),
        Expr::Literal(Literal::Bool(b, _)) => ExprView::Bool(b),
        Expr::Literal(Literal::String(s, _)) => ExprView::Str(s@),
        Expr::Identifier(i) => ExprView::Name(i.name@),
        Expr::Binary(b) => ExprView::Binary(b.op, Box::new(expr_view(*b.left)), Box::new(expr_view(*b.right))),
        Expr::Unary(u) => ExprView::Unary(u.op, Box::new(expr_view(*u.expr))),
        Expr::Call(c) => ExprView::Call(Box::new(expr_view(*c.callee)), exprs_view(c.arguments, 0)),
        Expr::Assign(a) => ExprView::Assign(Box::new(expr_view(*a.target)), Box::new(expr_view(*a.value))),
    }
}

/// The views of `v[i..]`.
pub open spec fn exprs_view(v: Vec<Expr>, i: int) -> Seq<ExprView>
    decreases v, v.len() - i,
{
    if 0 <= i < v.len() {
        seq![expr_view(v@[i])] + exprs_view(v, i + 1)
    } else {
        Seq::empty()
    }
}

pub proof fn lemma_exprs_view(v: Vec<Expr>, i: int)
    requires
        0 <= i <= v.len(),
    ensures
        exprs_view(v, i).len() == v.len() - i,
        forall|m: int| 0 <= m < v.len() - i ==> #[trigger] exprs_view(v, i)[m] == expr_view(v@[m + i]),
    decreases v.len() - i,
{
    if i < v.len() {
        lemma_exprs_view(v, i + 1);
        assert forall|m: int| 0 <= m < v.len() - i implies #[trigger] exprs_view(v, i)[m] == expr_view(v@[m + i]) by {
            if m > 0 {
                assert(exprs_view(v, i)[m] == exprs_view(v, i + 1)[m - 1]);
            }
        }
    }
}

/// The views of a sequence of expressions.
pub open spec fn views_of(s: Seq<Expr>) -> Seq<ExprView> {
    s.map_values(|e: Expr| expr_view(e))
}

/// The text of a string literal token without its quotes.
pub open spec fn unquoted(text: Seq<char>) -> Seq<char> {
    if text.len() >= 2 { text.subrange(1, text.len() - 1) } else { Seq::empty() }
}

/// The binary operator that a token stands for at a precedence level
/// (10 `||`, 9 `&&`, 8 equality, 7 ordering, 6 additive, 5 multiplicative).
pub open spec fn level_op(level: nat, t: Token) -> Option<BinaryOp> {
    if level == 10 {
        if t == Token::Or { Some(BinaryOp::Or) } else { None }
    } else if level == 9 {
        if t == Token::And { Some(BinaryOp::And) } else { None }
    } else if level == 8 {
        if t == Token::Eq { Some(BinaryOp::Eq) } else if t == Token::NotEq { Some(BinaryOp::NotEq) } else { None }
    } else if level == 7 {
        if t == Token::Lt { Some(BinaryOp::Lt) }
        else if t == Token::LtEq { Some(BinaryOp::LtEq) }
        else if t == Token::Gt { Some(BinaryOp::Gt) }
        else if t == Token::GtEq { Some(BinaryOp::GtEq) }
        else { None }
    } else if level == 6 {
        if t == Token::Plus { Some(BinaryOp::Add) } else if t == Token::Minus { Some(BinaryOp::Sub) } else { None }
    } else {
        if t == Token::Star { Some(BinaryOp::Mul) }
        else if t == Token::Slash { Some(BinaryOp::Div) }
        else if t == Token::Percent { Some(BinaryOp::Mod) }
        else { None }
    }
}

pub open spec fn unary_op_of(t: Token) -> Option<UnaryOp> {
    if t == Token::Minus { Some(UnaryOp::Neg) }
    else if t == Token::Plus { Some(UnaryOp::Pos) }
    else { None }
}

/// expression := assignment. The tree and the position after it, or `None`.
pub open spec fn p_expression(t: Seq<TokenWithSpan>, i: int) -> Option<(ExprView, int)>
    decreases t.len() - i, 24int,
{
    p_assignment(t, i)
}

/// assignment := logical_or [ "=" assignment ], the target being a name.
pub open spec fn p_assignment(t: Seq<TokenWithSpan>, i: int) -> Option<(ExprView, int)>
    decreases t.len() - i, 23int,
{
    match p_binary(t, i, 10) {
        Some((l, j)) => if i < j && kind_at(t, j) == Token::Assign {
            match p_assignment(t, j + 1) {
                Some((v, k)) => if l is Name { Some((ExprView::Assign(Box::new(l), Box::new(v)), k)) } else { None },
                None => None,
            }
        } else if i < j {
            Some((l, j))
        } else {
            None
        },
        None => None,
    }
}

/// The operands of level `level`: the next level down.
pub open spec fn p_operand(t: Seq<TokenWithSpan>, i: int, level: nat) -> Option<(ExprView, int)>
    decreases t.len() - i, 2 * level,
{
    if level == 5 {
        p_unary(t, i)
    } else if 6 <= level <= 10 {
        p_binary(t, i, (level - 1) as nat)
    } else {
        None
    }
}

/// A left-associative chain of the operators of `level` (5 to 10).
pub open spec fn p_binary(t: Seq<TokenWithSpan>, i: int, level: nat) -> Option<(ExprView, int)>
    decreases t.len() - i, 2 * level + 1,
{
    if 5 <= level <= 10 {
        match p_operand(t, i, level) {
            Some((l, j)) => if i < j <= t.len() { p_binary_rest(t, j, l, level) } else { None },
            None => None,
        }
    } else {
        None
    }
}

/// The rest of a chain after the tree `l`, from position `j`.
pub open spec fn p_binary_rest(t: Seq<TokenWithSpan>, j: int, l: ExprView, level: nat) -> Option<(ExprView, int)>
    decreases t.len() - j, 2 * level + 1,
{
    if 5 <= level <= 10 && 0 <= j {
        match level_op(level, kind_at(t, j)) {
            Some(op) => match p_operand(t, j + 1, level) {
                Some((r, k)) => if j < k <= t.len() {
                    p_binary_rest(t, k, ExprView::Binary(op, Box::new(l), Box::new(r)), level)
                } else {
                    None
                },
                None => None,
            },
            None => Some((l, j)),
        }
    } else {
        None
    }
}

/// unary := ("-" | "+") unary | call
pub open spec fn p_unary(t: Seq<TokenWithSpan>, i: int) -> Option<(ExprView, int)>
    decreases t.len() - i, 4int,
{
    match unary_op_of(kind_at(t, i)) {
        Some(op) => if 0 <= i {
            match p_unary(t, i + 1) {
                Some((e, j)) => Some((ExprView::Unary(op, Box::new(e)), j)),
                None => None,
            }
        } else {
            None
        },
        None => p_call(t, i),
    }
}

/// call := primary [ "(" arguments ], the callee being a name.
pub open spec fn p_call(t: Seq<TokenWithSpan>, i: int) -> Option<(ExprView, int)>
    decreases t.len() - i, 3int,
{
    match p_primary(t, i) {
        Some((p, j)) => if i < j && kind_at(t, j) == Token::LParen {
            if p is Name {
                match p_args_start(t, j + 1) {
                    Some((args, k)) => Some((ExprView::Call(Box::new(p), args), k)),
                    None => None,
                }
            } else {
                None
            }
        } else if i < j {
            Some((p, j))
        } else {
            None
        },
        None => None,
    }
}

/// After an opening parenthesis: `)` or a list of arguments.
pub open spec fn p_args_start(t: Seq<TokenWithSpan>, j: int) -> Option<(Seq<ExprView>, int)>
    decreases t.len() - j, 26int,
{
    if kind_at(t, j) == Token::RParen {
        Some((Seq::empty(), j + 1))
    } else {
        p_args_list(t, j, Seq::empty())
    }
}

/// expression { "," expression } ")", after the arguments `acc`.
pub open spec fn p_args_list(t: Seq<TokenWithSpan>, j: int, acc: Seq<ExprView>) -> Option<(Seq<ExprView>, int)>
    decreases t.len() - j, 25int,
{
    match p_expression(t, j) {
        Some((a, k)) => if j < k && kind_at(t, k) == Token::Comma {
            p_args_list(t, k + 1, acc.push(a))
        } else if j < k && kind_at(t, k) == Token::RParen {
            Some((acc.push(a), k + 1))
        } else {
            None
        },
        None => None,
    }
}

/// primary := literal | name | "(" expression ")"
pub open spec fn p_primary(t: Seq<TokenWithSpan>, i: int) -> Option<(ExprView, int)>
    decreases t.len() - i, 1int,
{
    if 0 <= i < t.len() {
        let text = t[i].text@;
        match t[i].token {
            Token::IntLiteral => if text.len() > 0 && all_digits(text) && digits_value(text) <= i32::MAX {
                Some((ExprView::Int(digits_value(text)), i + 1))
            } else {
                None
            },
            Token::FloatLiteral => Some((ExprView::Float(text), i + 1)),
            Token::StringLiteral => Some((ExprView::Str(unquoted(text)), i + 1)),
            Token::True => Some((ExprView::Bool(true), i + 1)),
            Token::False => Some((ExprView::Bool(false), i + 1)),
            Token::Ident => Some((ExprView::Name(text), i + 1)),
            Token::LParen => match p_expression(t, i + 1) {
                Some((e, j)) => if kind_at(t, j) == Token::RParen { Some((e, j + 1)) } else { None },
                None => None,
            },
            _ => None,
        }
    } else {
        None
    }
}


/// A declaration without its spans.
pub enum DeclView {
    Function(Seq<char>, Seq<(Seq<char>, Type)>, Option<Type>, Seq<StmtView>),
    Variable(Seq<char>, Option<Type>, bool, ExprView),
}

/// A statement without its spans.
pub enum StmtView {
    Expr(ExprView),
    Decl(DeclView),
    If(ExprView, Seq<StmtView>, Option<Box<StmtView>>),
    While(ExprView, Seq<StmtView>),
    For(Seq<char>, ExprView, ExprView, Seq<StmtView>),
    Return(Option<ExprView>),
    Block(Seq<StmtView>),
    Print(Seq<ExprView>),
}

pub open spec fn params_view(ps: Seq<Parameter>) -> Seq<(Seq<char>, Type)> {
    ps.map_values(|p: Parameter| (p.name@, p.typ))
}

pub open spec fn opt_expr_view(e: Option<Expr>) -> Option<ExprView> {
    match e {
        Some(e) => Some(expr_view(e)),
        None => None,
    }
}

pub open spec fn decl_view(d: Declaration) -> DeclView
    decreases d, 0int,
{
    match d {
        Declaration::Function(f) => DeclView::Function(f.name@, params_view(f.params@), f.return_type, stmts_view(f.body.statements, 0)),
        Declaration::Variable(v) => DeclView::Variable(v.name@, v.typ, v.is_mutable, expr_view(v.initializer)),
    }
}

pub open spec fn stmt_view(s: Stmt) -> StmtView
    decreases s, 0int,
{
    match s {
        Stmt::Expr(e) => StmtView::Expr(expr_view(e.expr)),
        Stmt::Declaration(d) => StmtView::Decl(decl_view(d)),
        Stmt::If(i) => StmtView::If(
            expr_view(i.condition),
            stmts_view(i.then_branch.statements, 0),
            match i.else_branch {
                Some(b) => Some(Box::new(stmt_view(*b))),
                None => None,
            },
        ),
        Stmt::While(w) => StmtView::While(expr_view(w.condition), stmts_view(w.body.statements, 0)),
        Stmt::For(f) => StmtView::For(f.variable@, expr_view(f.start), expr_view(f.end), stmts_view(f.body.statements, 0)),
        Stmt::Return(r) => StmtView::Return(opt_expr_view(r.value)),
        Stmt::Block(b) => StmtView::Block(stmts_view(b.statements, 0)),
        Stmt::Println(p) => StmtView::Print(exprs_view(p.args, 0)),
    }
}

/// The views of `v[i..]`.
pub open spec fn stmts_view(v: Vec<Stmt>, i: int) -> Seq<StmtView>
    decreases v, v.len() - i,
{
    if 0 <= i < v.len() {
        seq![stmt_view(v@[i])] + stmts_view(v, i + 1)
    } else {
        Seq::empty()
    }
}

pub proof fn lemma_stmts_view(v: Vec<Stmt>, i: int)
    requires
        0 <= i <= v.len(),
    ensures
        stmts_view(v, i).len() == v.len() - i,
        forall|m: int| 0 <= m < v.len() - i ==> #[trigger] stmts_view(v, i)[m] == stmt_view(v@[m + i]),
    decreases v.len() - i,
{
    if i < v.len() {
        lemma_stmts_view(v, i + 1);
        assert forall|m: int| 0 <= m < v.len() - i implies #[trigger] stmts_view(v, i)[m] == stmt_view(v@[m + i]) by {
            if m > 0 {
                assert(stmts_view(v, i)[m] == stmts_view(v, i + 1)[m - 1]);
            }
        }
    }
}

/// statement := let | return | block | if | while | for | println | expression ";"
pub open spec fn p_statement(t: Seq<TokenWithSpan>, i: int) -> Option<(StmtView, int)>
    decreases t.len() - i, 3int,
{
    let k = kind_at(t, i);
    if k == Token::Let {
        match p_let(t, i) {
            Some((d, j)) => Some((StmtView::Decl(d), j)),
            None => None,
        }
    } else if k == Token::Return {
        p_return(t, i)
    } else if k == Token::LBrace {
        match p_block(t, i) {
            Some((b, j)) => Some((StmtView::Block(b), j)),
            None => None,
        }
    } else if k == Token::If {
        p_if(t, i)
    } else if k == Token::While {
        p_while(t, i)
    } else if k == Token::For {
        p_for(t, i)
    } else if k == Token::PrintlnMacro {
        p_println(t, i)
    } else {
        p_expr_stmt(t, i)
    }
}

/// expression ";"
pub open spec fn p_expr_stmt(t: Seq<TokenWithSpan>, i: int) -> Option<(StmtView, int)> {
    match p_expression(t, i) {
        Some((e, j)) => if kind_at(t, j) == Token::Semicolon { Some((StmtView::Expr(e), j + 1)) } else { None },
        None => None,
    }
}

/// block := "{" { statement } "}"
pub open spec fn p_block(t: Seq<TokenWithSpan>, i: int) -> Option<(Seq<StmtView>, int)>
    decreases t.len() - i, 2int,
{
    if kind_at(t, i) == Token::LBrace {
        p_block_items(t, i + 1, Seq::empty())
    } else {
        None
    }
}

/// The statements of a block from position `j`, after `acc`, through its `}`.
pub open spec fn p_block_items(t: Seq<TokenWithSpan>, j: int, acc: Seq<StmtView>) -> Option<(Seq<StmtView>, int)>
    decreases t.len() - j, 4int,
{
    if kind_at(t, j) == Token::RBrace {
        Some((acc, j + 1))
    } else if 0 <= j < t.len() {
        match p_statement(t, j) {
            Some((st, k)) => if j < k <= t.len() { p_block_items(t, k, acc.push(st)) } else { None },
            None => None,
        }
    } else {
        None
    }
}

/// if := "if" expression block [ "else" ( if | block ) ]
pub open spec fn p_if(t: Seq<TokenWithSpan>, i: int) -> Option<(StmtView, int)>
    decreases t.len() - i, 2int,
{
    if kind_at(t, i) == Token::If {
        match p_expression(t, i + 1) {
            Some((c, j)) => if i < j <= t.len() {
                match p_block(t, j) {
                    Some((b, k)) => if j < k <= t.len() {
                        if kind_at(t, k) == Token::Else {
                            if kind_at(t, k + 1) == Token::If {
                                match p_if(t, k + 1) {
                                    Some((e, m)) => Some((StmtView::If(c, b, Some(Box::new(e))), m)),
                                    None => None,
                                }
                            } else {
                                match p_block(t, k + 1) {
                                    Some((eb, m)) => Some((StmtView::If(c, b, Some(Box::new(StmtView::Block(eb)))), m)),
                                    None => None,
                                }
                            }
                        } else {
                            Some((StmtView::If(c, b, None), k))
                        }
                    } else {
                        None
                    },
                    None => None,
                }
            } else {
                None
            },
            None => None,
        }
    } else {
        None
    }
}

/// while := "while" expression block
pub open spec fn p_while(t: Seq<TokenWithSpan>, i: int) -> Option<(StmtView, int)>
    decreases t.len() - i, 2int,
{
    if kind_at(t, i) == Token::While {
        match p_expression(t, i + 1) {
            Some((c, j)) => if i < j <= t.len() {
                match p_block(t, j) {
                    Some((b, k)) => Some((StmtView::While(c, b), k)),
                    None => None,
                }
            } else {
                None
            },
            None => None,
        }
    } else {
        None
    }
}

/// for := "for" name "in" expression ".." expression block
pub open spec fn p_for(t: Seq<TokenWithSpan>, i: int) -> Option<(StmtView, int)>
    decreases t.len() - i, 2int,
{
    if kind_at(t, i) == Token::For && kind_at(t, i + 1) == Token::Ident && kind_at(t, i + 2) == Token::In {
        match p_expression(t, i + 3) {
            Some((lo, j)) => if kind_at(t, j) == Token::DotDot {
                match p_expression(t, j + 1) {
                    Some((hi, k)) => if i < k <= t.len() {
                        match p_block(t, k) {
                            Some((b, m)) => Some((StmtView::For(t[i + 1].text@, lo, hi, b), m)),
                            None => None,
                        }
                    } else {
                        None
                    },
                    None => None,
                }
            } else {
                None
            },
            None => None,
        }
    } else {
        None
    }
}

/// return := "return" [ expression ] ";"
pub open spec fn p_return(t: Seq<TokenWithSpan>, i: int) -> Option<(StmtView, int)> {
    if kind_at(t, i) == Token::Return {
        if kind_at(t, i + 1) == Token::Semicolon {
            Some((StmtView::Return(None), i + 2))
        } else {
            match p_expression(t, i + 1) {
                Some((e, j)) => if kind_at(t, j) == Token::Semicolon { Some((StmtView::Return(Some(e)), j + 1)) } else { None },
                None => None,
            }
        }
    } else {
        None
    }
}

/// println := "println!" "(" [ expression { "," expression } ] ")" ";"
pub open spec fn p_println(t: Seq<TokenWithSpan>, i: int) -> Option<(StmtView, int)> {
    if kind_at(t, i) == Token::PrintlnMacro && kind_at(t, i + 1) == Token::LParen {
        match p_args_start(t, i + 2) {
            Some((args, j)) => if kind_at(t, j) == Token::Semicolon { Some((StmtView::Print(args), j + 1)) } else { None },
            None => None,
        }
    } else {
        None
    }
}

/// let := "let" [ "mut" ] name [ ":" type ] "=" expression ";"
pub open spec fn p_let(t: Seq<TokenWithSpan>, i: int) -> Option<(DeclView, int)> {
    let m = kind_at(t, i + 1) == Token::Mut;
    let n = if m { i + 2 } else { i + 1 };
    if kind_at(t, i) == Token::Let && kind_at(t, n) == Token::Ident {
        let typed = kind_at(t, n + 1) == Token::Colon;
        let ty = if typed { type_of_token(kind_at(t, n + 2)) } else { None };
        let a = if typed { n + 3 } else { n + 1 };
        if (typed ==> ty is Some) && kind_at(t, a) == Token::Assign {
            match p_expression(t, a + 1) {
                Some((e, j)) => if kind_at(t, j) == Token::Semicolon {
                    Some((DeclView::Variable(t[n].text@, ty, m, e), j + 1))
                } else {
                    None
                },
                None => None,
            }
        } else {
            None
        }
    } else {
        None
    }
}

/// The parameters from position `j`, after `acc`: name ":" type, separated by commas.
pub open spec fn p_params(t: Seq<TokenWithSpan>, j: int, acc: Seq<(Seq<char>, Type)>) -> Option<(Seq<(Seq<char>, Type)>, int)>
    decreases t.len() - j,
{
    if 0 <= j && kind_at(t, j) == Token::Ident && kind_at(t, j + 1) == Token::Colon {
        match type_of_token(kind_at(t, j + 2)) {
            Some(ty) => {
                let acc2 = acc.push((t[j].text@, ty));
                if kind_at(t, j + 3) == Token::Comma { p_params(t, j + 4, acc2) } else { Some((acc2, j + 3)) }
            },
            None => None,
        }
    } else {
        None
    }
}

/// The parameter list after "(": empty before ")", or parameters.
pub open spec fn p_param_list(t: Seq<TokenWithSpan>, j: int) -> Option<(Seq<(Seq<char>, Type)>, int)> {
    if kind_at(t, j) == Token::RParen {
        Some((Seq::empty(), j))
    } else {
        p_params(t, j, Seq::empty())
    }
}

/// function := "fn" name "(" [ parameters ] ")" [ "->" type ] block
pub open spec fn p_function(t: Seq<TokenWithSpan>, i: int) -> Option<(DeclView, int)> {
    if kind_at(t, i) == Token::Fn && kind_at(t, i + 1) == Token::Ident && kind_at(t, i + 2) == Token::LParen {
        match p_param_list(t, i + 3) {
            Some((params, k)) => if kind_at(t, k) == Token::RParen {
                let arrow = kind_at(t, k + 1) == Token::Arrow;
                let ret = if arrow { type_of_token(kind_at(t, k + 2)) } else { None };
                let b = if arrow { k + 3 } else { k + 1 };
                if arrow ==> ret is Some {
                    match p_block(t, b) {
                        Some((body, e)) => Some((DeclView::Function(t[i + 1].text@, params, ret, body), e)),
                        None => None,
                    }
                } else {
                    None
                }
            } else {
                None
            },
            None => None,
        }
    } else {
        None
    }
}

/// declaration := function | let
pub open spec fn p_declaration(t: Seq<TokenWithSpan>, i: int) -> Option<(DeclView, int)> {
    if kind_at(t, i) == Token::Fn {
        p_function(t, i)
    } else if kind_at(t, i) == Token::Let {
        p_let(t, i)
    } else {
        None
    }
}

/// program := { declaration }, from position `i` to the end, after `acc`.
pub open spec fn p_program(t: Seq<TokenWithSpan>, i: int, acc: Seq<DeclView>) -> Option<Seq<DeclView>>
    decreases t.len() - i,
{
    if i >= t.len() {
        Some(acc)
    } else {
        match p_declaration(t, i) {
            Some((d, j)) => if i < j <= t.len() { p_program(t, j, acc.push(d)) } else { None },
            None => None,
        }
    }
}

/// The parse is the one the grammar gives: the same tree, ending at the same
/// position; a failure exactly where the grammar has none.
pub open spec fn as_grammar(after: &Parser, r: Result<Expr, CompilerError>, o: Option<(ExprView, int)>) -> bool {
    match o {
        Some((v, j)) => r matches Ok(e) && expr_view(e) == v && after.current == j,
        None => r is Err,
    }
}


pub proof fn lemma_span_order(t: Seq<TokenWithSpan>, a: int, b: int)
    requires
        spans_in_order(t),
        0 <= a <= b < t.len(),
    ensures
        t[a].span.0 <= t[b].span.0,
        t[a].span.1 <= t[b].span.1,
        t[a].span.0 <= t[b].span.1,
    decreases b - a,
{
    assert(t[b].span.0 <= t[b].span.1);
    if a < b {
        lemma_span_order(t, a, b - 1);
        assert(t[b - 1].span.1 <= t[b].span.0);
        assert(t[b - 1].span.0 <= t[b - 1].span.1);
    }
}

/// `inner` lies within `outer`.
pub open spec fn within(inner: Span, outer: Span) -> bool {
    outer.start <= inner.start && inner.start <= inner.end && inner.end <= outer.end
}

/// Every node's span is a range, and each child's span lies within its parent's.
pub open spec fn spans_nest(e: Expr) -> bool
    decreases e, 0int,
{
    let sp = e.span_of();
    sp.start <= sp.end && match e {
        Expr::Binary(b) => within(b.left.span_of(), sp) && within(b.right.span_of(), sp) && spans_nest(*b.left)
            && spans_nest(*b.right),
        Expr::Unary(u) => within(u.expr.span_of(), sp) && spans_nest(*u.expr),
        Expr::Assign(a) => within(a.target.span_of(), sp) && within(a.value.span_of(), sp) && spans_nest(*a.target)
            && spans_nest(*a.value),
        Expr::Call(c) => within(c.callee.span_of(), sp) && spans_nest(*c.callee) && args_nest(sp, c.arguments, 0),
        _ => true,
    }
}

/// The arguments `v[i..]` lie within `sp` and their spans nest.
pub open spec fn args_nest(sp: Span, v: Vec<Expr>, i: int) -> bool
    decreases v, v.len() - i,
{
    if 0 <= i < v.len() {
        within(v@[i].span_of(), sp) && spans_nest(v@[i]) && args_nest(sp, v, i + 1)
    } else {
        true
    }
}

/// One more argument, parsed from `j` to `k`, keeps every argument within the
/// span from `c0` to the token before `cur`.
proof fn lemma_args_grow(t: Seq<TokenWithSpan>, before: Seq<Expr>, args: Seq<Expr>, c0: int, j: int, k: int, cur: int)
    requires
        0 <= c0 < j < k < cur <= t.len(),
        args.len() == before.len() + 1,
        forall|m: int| 0 <= m < before.len() ==> args[m] == before[m],
        spans_in_order(t) ==> forall|m: int| 0 <= m < before.len() ==> within(
            #[trigger] before[m].span_of(),
            Span { start: t[c0].span.0, end: t[j - 1].span.1 },
        ) && spans_nest(before[m]),
        args.last().span_of() == (Span { start: t[j].span.0, end: t[k - 1].span.1 }),
        spans_in_order(t) ==> spans_nest(args.last()),
    ensures
        spans_in_order(t) ==> forall|m: int| 0 <= m < args.len() ==> within(
            #[trigger] args[m].span_of(),
            Span { start: t[c0].span.0, end: t[cur - 1].span.1 },
        ) && spans_nest(args[m]),
{
    if spans_in_order(t) {
        lemma_span_order(t, j - 1, cur - 1);
        lemma_span_order(t, c0, j);
        lemma_span_order(t, k - 1, cur - 1);
        assert forall|m: int| 0 <= m < args.len() implies within(
            #[trigger] args[m].span_of(),
            Span { start: t[c0].span.0, end: t[cur - 1].span.1 },
        ) && spans_nest(args[m]) by {
            if m < before.len() {
                assert(args[m] == before[m]);
            }
        }
    }
}

proof fn lemma_args_nest(sp: Span, v: Vec<Expr>, i: int)
    requires
        0 <= i <= v.len(),
        forall|m: int| i <= m < v.len() ==> within(#[trigger] v@[m].span_of(), sp) && spans_nest(v@[m]),
    ensures
        args_nest(sp, v, i),
    decreases v.len() - i,
{
    if i < v.len() {
        lemma_args_nest(sp, v, i + 1);
    }
}

proof fn lemma_args_nest_widen(sp: Span, wide: Span, v: Vec<Expr>, i: int)
    requires
        0 <= i <= v.len(),
        args_nest(sp, v, i),
        wide.start <= sp.start,
        sp.end <= wide.end,
    ensures
        args_nest(wide, v, i),
    decreases v.len() - i,
{
    if i < v.len() {
        lemma_args_nest_widen(sp, wide, v, i + 1);
    }
}

/// What a successful or failed expression parse promises: the position moves
/// forward past at least one token on success, the expression's span covers
/// exactly the tokens consumed, and a failure is a parser error.
pub open spec fn expr_parsed(before: &Parser, after: &Parser, r: Result<Expr, CompilerError>) -> bool {
    &&& before.step(after, r is Ok)
    &&& r matches Ok(e) ==> e.span_of() == after.span_from(before.current as int)
    &&& r matches Ok(e) ==> (spans_in_order(before.tokens@) ==> spans_nest(e))
    &&& r matches Err(e) ==> e is ParserError
}

impl Parser {
    /// expression := assignment
    fn expression(&mut self) -> (r: Result<Expr, CompilerError>)
        requires
            old(self).wf(),
        ensures
            expr_parsed(old(self), final(self), r),
            as_grammar(final(self), r, p_expression(old(self).tokens@, old(self).current as int)),
        decreases old(self).tokens.len() - old(self).current, 12nat,
    {
        self.assignment()
    }

    /// assignment := logical_or [ "=" assignment ], the target being a name.
    fn assignment(&mut self) -> (r: Result<Expr, CompilerError>)
        requires
            old(self).wf(),
        ensures
            expr_parsed(old(self), final(self), r),
            as_grammar(final(self), r, p_assignment(old(self).tokens@, old(self).current as int)),
        decreases old(self).tokens.len() - old(self).current, 11nat,
    {
        let ghost t = self.tokens@;
        let start = self.current;
        let target = self.logical_or()?;
        if self.check(Token::Assign) {
            let ghost j = self.current as int;
            let at = self.here();
            self.advance();
            let value = self.assignment()?;
            let ghost k = self.current as int;
            proof {
                if spans_in_order(t) {
                    lemma_span_order(t, j - 1, k - 1);
                    lemma_span_order(t, start as int, j + 1);
                    lemma_span_order(t, start as int, k - 1);
                }
            }
            match target {
                Expr::Identifier(_) => {
                    let span = self.span_from_exec(start);
                    Ok(Expr::Assign(AssignExpr { target: Box::new(target), value: Box::new(value), span }))
                },
                _ => Err(CompilerError::ParserError {
                    span: at,
                    message: String::from_str("invalid assignment target"),
                }),
            }
        } else {
            Ok(target)
        }
    }

    /// logical_or := logical_and { "||" logical_and }
    fn logical_or(&mut self) -> (r: Result<Expr, CompilerError>)
        requires
            old(self).wf(),
        ensures
            expr_parsed(old(self), final(self), r),
            as_grammar(final(self), r, p_binary(old(self).tokens@, old(self).current as int, 10)),
        decreases old(self).tokens.len() - old(self).current, 10nat,
    {
        let ghost t = self.tokens@;
        let start = self.current;
        let mut expr = self.logical_and()?;
        loop
            invariant
                self.wf(),
                self.tokens@ == t,
                t == old(self).tokens@,
                start == old(self).current,
                start < self.current,
                expr.span_of() == self.span_from(start as int),
                spans_in_order(t) ==> spans_nest(expr),
                p_binary(t, start as int, 10) == p_binary_rest(t, self.current as int, expr_view(expr), 10),
            ensures
                self.wf(),
                self.tokens@ == t,
                start < self.current,
                expr.span_of() == self.span_from(start as int),
                spans_in_order(t) ==> spans_nest(expr),
                p_binary(t, start as int, 10) == Some((expr_view(expr), self.current as int)),
            decreases self.tokens.len() - self.current,
        {
            let ghost cur = self.current as int;
            let ghost l = expr_view(expr);
            let op = match self.peek() {
                Token::Or => BinaryOp::Or,
                _ => {
                    assert(level_op(10, kind_at(t, cur)) is None);
                    assert(p_binary_rest(t, cur, l, 10) == Some((l, cur)));
                    break;
                },
            };
            assert(level_op(10, kind_at(t, cur)) == Some(op));
            self.advance();
            let right = match self.logical_and() {
                Ok(e) => e,
                Err(e) => {
                    assert(p_operand(t, cur + 1, 10) is None);
                    assert(p_binary_rest(t, cur, l, 10) is None);
                    return Err(e);
                },
            };
            assert(p_operand(t, cur + 1, 10) == Some((expr_view(right), self.current as int)));
            let span = self.span_from_exec(start);
            let ghost k = self.current as int;
            expr = Expr::Binary(BinaryExpr { left: Box::new(expr), op, right: Box::new(right), span });
            proof {
                if spans_in_order(t) {
                    lemma_span_order(t, cur - 1, k - 1);
                    lemma_span_order(t, start as int, cur + 1);
                    lemma_span_order(t, start as int, k - 1);
                }
            }
        }
        Ok(expr)
    }

    /// logical_and := equality { "&&" equality }
    fn logical_and(&mut self) -> (r: Result<Expr, CompilerError>)
        requires
            old(self).wf(),
        ensures
            expr_parsed(old(self), final(self), r),
            as_grammar(final(self), r, p_binary(old(self).tokens@, old(self).current as int, 9)),
        decreases old(self).tokens.len() - old(self).current, 9nat,
    {
        let ghost t = self.tokens@;
        let start = self.current;
        let mut expr = self.equality()?;
        loop
            invariant
                self.wf(),
                self.tokens@ == t,
                t == old(self).tokens@,
                start == old(self).current,
                start < self.current,
                expr.span_of() == self.span_from(start as int),
                spans_in_order(t) ==> spans_nest(expr),
                p_binary(t, start as int, 9) == p_binary_rest(t, self.current as int, expr_view(expr), 9),
            ensures
                self.wf(),
                self.tokens@ == t,
                start < self.current,
                expr.span_of() == self.span_from(start as int),
                spans_in_order(t) ==> spans_nest(expr),
                p_binary(t, start as int, 9) == Some((expr_view(expr), self.current as int)),
            decreases self.tokens.len() - self.current,
        {
            let ghost cur = self.current as int;
            let ghost l = expr_view(expr);
            let op = match self.peek() {
                Token::And => BinaryOp::And,
                _ => {
                    assert(level_op(9, kind_at(t, cur)) is None);
                    assert(p_binary_rest(t, cur, l, 9) == Some((l, cur)));
                    break;
                },
            };
            assert(level_op(9, kind_at(t, cur)) == Some(op));
            self.advance();
            let right = match self.equality() {
                Ok(e) => e,
                Err(e) => {
                    assert(p_operand(t, cur + 1, 9) is None);
                    assert(p_binary_rest(t, cur, l, 9) is None);
                    return Err(e);
                },
            };
            assert(p_operand(t, cur + 1, 9) == Some((expr_view(right), self.current as int)));
            let span = self.span_from_exec(start);
            let ghost k = self.current as int;
            expr = Expr::Binary(BinaryExpr { left: Box::new(expr), op, right: Box::new(right), span });
            proof {
                if spans_in_order(t) {
                    lemma_span_order(t, cur - 1, k - 1);
                    lemma_span_order(t, start as int, cur + 1);
                    lemma_span_order(t, start as int, k - 1);
                }
            }
        }
        Ok(expr)
    }

    /// equality := comparison { ("==" | "!=") comparison }
    fn equality(&mut self) -> (r: Result<Expr, CompilerError>)
        requires
            old(self).wf(),
        ensures
            expr_parsed(old(self), final(self), r),
            as_grammar(final(self), r, p_binary(old(self).tokens@, old(self).current as int, 8)),
        decreases old(self).tokens.len() - old(self).current, 8nat,
    {
        let ghost t = self.tokens@;
        let start = self.current;
        let mut expr = self.comparison()?;
        loop
            invariant
                self.wf(),
                self.tokens@ == t,
                t == old(self).tokens@,
                start == old(self).current,
                start < self.current,
                expr.span_of() == self.span_from(start as int),
                spans_in_order(t) ==> spans_nest(expr),
                p_binary(t, start as int, 8) == p_binary_rest(t, self.current as int, expr_view(expr), 8),
            ensures
                self.wf(),
                self.tokens@ == t,
                start < self.current,
                expr.span_of() == self.span_from(start as int),
                spans_in_order(t) ==> spans_nest(expr),
                p_binary(t, start as int, 8) == Some((expr_view(expr), self.current as int)),
            decreases self.tokens.len() - self.current,
        {
            let ghost cur = self.current as int;
            let ghost l = expr_view(expr);
            let op = match self.peek() {
                Token::Eq => BinaryOp::Eq,
                Token::NotEq => BinaryOp::NotEq,
                _ => {
                    assert(level_op(8, kind_at(t, cur)) is None);
                    assert(p_binary_rest(t, cur, l, 8) == Some((l, cur)));
                    break;
                },
            };
            assert(level_op(8, kind_at(t, cur)) == Some(op));
            self.advance();
            let right = match self.comparison() {
                Ok(e) => e,
                Err(e) => {
                    assert(p_operand(t, cur + 1, 8) is None);
                    assert(p_binary_rest(t, cur, l, 8) is None);
                    return Err(e);
                },
            };
            assert(p_operand(t, cur + 1, 8) == Some((expr_view(right), self.current as int)));
            let span = self.span_from_exec(start);
            let ghost k = self.current as int;
            expr = Expr::Binary(BinaryExpr { left: Box::new(expr), op, right: Box::new(right), span });
            proof {
                if spans_in_order(t) {
                    lemma_span_order(t, cur - 1, k - 1);
                    lemma_span_order(t, start as int, cur + 1);
                    lemma_span_order(t, start as int, k - 1);
                }
            }
        }
        Ok(expr)
    }

    /// comparison := additive { ("<" | "<=" | ">" | ">=") additive }
    fn comparison(&mut self) -> (r: Result<Expr, CompilerError>)
        requires
            old(self).wf(),
        ensures
            expr_parsed(old(self), final(self), r),
            as_grammar(final(self), r, p_binary(old(self).tokens@, old(self).current as int, 7)),
        decreases old(self).tokens.len() - old(self).current, 7nat,
    {
        let ghost t = self.tokens@;
        let start = self.current;
        let mut expr = self.additive()?;
        loop
            invariant
                self.wf(),
                self.tokens@ == t,
                t == old(self).tokens@,
                start == old(self).current,
                start < self.current,
                expr.span_of() == self.span_from(start as int),
                spans_in_order(t) ==> spans_nest(expr),
                p_binary(t, start as int, 7) == p_binary_rest(t, self.current as int, expr_view(expr), 7),
            ensures
                self.wf(),
                self.tokens@ == t,
                start < self.current,
                expr.span_of() == self.span_from(start as int),
                spans_in_order(t) ==> spans_nest(expr),
                p_binary(t, start as int, 7) == Some((expr_view(expr), self.current as int)),
            decreases self.tokens.len() - self.current,
        {
            let ghost cur = self.current as int;
            let ghost l = expr_view(expr);
            let op = match self.peek() {
                Token::Lt => BinaryOp::Lt,
                Token::LtEq => BinaryOp::LtEq,
                Token::Gt => BinaryOp::Gt,
                Token::GtEq => BinaryOp::GtEq,
                _ => {
                    assert(level_op(7, kind_at(t, cur)) is None);
                    assert(p_binary_rest(t, cur, l, 7) == Some((l, cur)));
                    break;
                },
            };
            assert(level_op(7, kind_at(t, cur)) == Some(op));
            self.advance();
            let right = match self.additive() {
                Ok(e) => e,
                Err(e) => {
                    assert(p_operand(t, cur + 1, 7) is None);
                    assert(p_binary_rest(t, cur, l, 7) is None);
                    return Err(e);
                },
            };
            assert(p_operand(t, cur + 1, 7) == Some((expr_view(right), self.current as int)));
            let span = self.span_from_exec(start);
            let ghost k = self.current as int;
            expr = Expr::Binary(BinaryExpr { left: Box::new(expr), op, right: Box::new(right), span });
            proof {
                if spans_in_order(t) {
                    lemma_span_order(t, cur - 1, k - 1);
                    lemma_span_order(t, start as int, cur + 1);
                    lemma_span_order(t, start as int, k - 1);
                }
            }
        }
        Ok(expr)
    }

    /// additive := multiplicative { ("+" | "-") multiplicative }
    fn additive(&mut self) -> (r: Result<Expr, CompilerError>)
        requires
            old(self).wf(),
        ensures
            expr_parsed(old(self), final(self), r),
            as_grammar(final(self), r, p_binary(old(self).tokens@, old(self).current as int, 6)),
        decreases old(self).tokens.len() - old(self).current, 6nat,
    {
        let ghost t = self.tokens@;
        let start = self.current;
        let mut expr = self.multiplicative()?;
        loop
            invariant
                self.wf(),
                self.tokens@ == t,
                t == old(self).tokens@,
                start == old(self).current,
                start < self.current,
                expr.span_of() == self.span_from(start as int),
                spans_in_order(t) ==> spans_nest(expr),
                p_binary(t, start as int, 6) == p_binary_rest(t, self.current as int, expr_view(expr), 6),
            ensures
                self.wf(),
                self.tokens@ == t,
                start < self.current,
                expr.span_of() == self.span_from(start as int),
                spans_in_order(t) ==> spans_nest(expr),
                p_binary(t, start as int, 6) == Some((expr_view(expr), self.current as int)),
            decreases self.tokens.len() - self.current,
        {
            let ghost cur = self.current as int;
            let ghost l = expr_view(expr);
            let op = match self.peek() {
                Token::Plus => BinaryOp::Add,
                Token::Minus => BinaryOp::Sub,
                _ => {
                    assert(level_op(6, kind_at(t, cur)) is None);
                    assert(p_binary_rest(t, cur, l, 6) == Some((l, cur)));
                    break;
                },
            };
            assert(level_op(6, kind_at(t, cur)) == Some(op));
            self.advance();
            let right = match self.multiplicative() {
                Ok(e) => e,
                Err(e) => {
                    assert(p_operand(t, cur + 1, 6) is None);
                    assert(p_binary_rest(t, cur, l, 6) is None);
                    return Err(e);
                },
            };
            assert(p_operand(t, cur + 1, 6) == Some((expr_view(right), self.current as int)));
            let span = self.span_from_exec(start);
            let ghost k = self.current as int;
            expr = Expr::Binary(BinaryExpr { left: Box::new(expr), op, right: Box::new(right), span });
            proof {
                if spans_in_order(t) {
                    lemma_span_order(t, cur - 1, k - 1);
                    lemma_span_order(t, start as int, cur + 1);
                    lemma_span_order(t, start as int, k - 1);
                }
            }
        }
        Ok(expr)
    }

    /// multiplicative := unary { ("*" | "/" | "%") unary }
    fn multiplicative(&mut self) -> (r: Result<Expr, CompilerError>)
        requires
            old(self).wf(),
        ensures
            expr_parsed(old(self), final(self), r),
            as_grammar(final(self), r, p_binary(old(self).tokens@, old(self).current as int, 5)),
        decreases old(self).tokens.len() - old(self).current, 5nat,
    {
        let ghost t = self.tokens@;
        let start = self.current;
        let mut expr = self.unary()?;
        loop
            invariant
                self.wf(),
                self.tokens@ == t,
                t == old(self).tokens@,
                start == old(self).current,
                start < self.current,
                expr.span_of() == self.span_from(start as int),
                spans_in_order(t) ==> spans_nest(expr),
                p_binary(t, start as int, 5) == p_binary_rest(t, self.current as int, expr_view(expr), 5),
            ensures
                self.wf(),
                self.tokens@ == t,
                start < self.current,
                expr.span_of() == self.span_from(start as int),
                spans_in_order(t) ==> spans_nest(expr),
                p_binary(t, start as int, 5) == Some((expr_view(expr), self.current as int)),
            decreases self.tokens.len() - self.current,
        {
            let ghost cur = self.current as int;
            let ghost l = expr_view(expr);
            let op = match self.peek() {
                Token::Star => BinaryOp::Mul,
                Token::Slash => BinaryOp::Div,
                Token::Percent => BinaryOp::Mod,
                _ => {
                    assert(level_op(5, kind_at(t, cur)) is None);
                    assert(p_binary_rest(t, cur, l, 5) == Some((l, cur)));
                    break;
                },
            };
            assert(level_op(5, kind_at(t, cur)) == Some(op));
            self.advance();
            let right = match self.unary() {
                Ok(e) => e,
                Err(e) => {
                    assert(p_operand(t, cur + 1, 5) is None);
                    assert(p_binary_rest(t, cur, l, 5) is None);
                    return Err(e);
                },
            };
            assert(p_operand(t, cur + 1, 5) == Some((expr_view(right), self.current as int)));
            let span = self.span_from_exec(start);
            let ghost k = self.current as int;
            expr = Expr::Binary(BinaryExpr { left: Box::new(expr), op, right: Box::new(right), span });
            proof {
                if spans_in_order(t) {
                    lemma_span_order(t, cur - 1, k - 1);
                    lemma_span_order(t, start as int, cur + 1);
                    lemma_span_order(t, start as int, k - 1);
                }
            }
        }
        Ok(expr)
    }

    /// unary := ("-" | "+") unary | call
    fn unary(&mut self) -> (r: Result<Expr, CompilerError>)
        requires
            old(self).wf(),
        ensures
            expr_parsed(old(self), final(self), r),
            as_grammar(final(self), r, p_unary(old(self).tokens@, old(self).current as int)),
        decreases old(self).tokens.len() - old(self).current, 4nat,
    {
        let start = self.current;
        let op = match self.peek() {
            Token::Minus => UnaryOp::Neg,
            Token::Plus => UnaryOp::Pos,
            _ => return self.call(),
        };
        self.advance();
        let operand = self.unary()?;
        let span = self.span_from_exec(start);
        Ok(Expr::Unary(UnaryExpr { op, expr: Box::new(operand), span }))
    }

    /// call := primary [ "(" [ expression { "," expression } ] ")" ], the callee being a name.
    fn call(&mut self) -> (r: Result<Expr, CompilerError>)
        requires
            old(self).wf(),
        ensures
            expr_parsed(old(self), final(self), r),
            as_grammar(final(self), r, p_call(old(self).tokens@, old(self).current as int)),
        decreases old(self).tokens.len() - old(self).current, 3nat,
    {
        let ghost t = self.tokens@;
        let start = self.current;
        let callee = self.primary()?;
        if !self.check(Token::LParen) {
            return Ok(callee);
        }
        match callee {
            Expr::Identifier(_) => {},
            _ => return Err(self.error("only a function name can be called")),
        }
        let ghost j = self.current as int;
        let arguments = self.arguments()?;
        let span = self.span_from_exec(start);
        proof {
            if spans_in_order(t) {
                let k = self.current as int;
                lemma_span_order(t, j - 1, k - 1);
                lemma_span_order(t, start as int, j);
                lemma_span_order(t, start as int, k - 1);
                lemma_args_nest_widen(self.span_from(j), span, arguments, 0);
            }
        }
        Ok(Expr::Call(FunctionCall { callee: Box::new(callee), arguments, span }))
    }

    /// "(" [ expression { "," expression } ] ")"
    #[verifier::rlimit(50)]
    fn arguments(&mut self) -> (r: Result<Vec<Expr>, CompilerError>)
        requires
            old(self).wf(),
        ensures
            old(self).step(final(self), r is Ok),
            r matches Err(e) ==> e is ParserError,
            match (if kind_at(old(self).tokens@, old(self).current as int) == Token::LParen {
                p_args_start(old(self).tokens@, old(self).current + 1)
            } else {
                None
            }) {
                Some((args, k)) => r matches Ok(v) && exprs_view(v, 0) == args && final(self).current == k,
                None => r is Err,
            },
            r matches Ok(v) ==> (spans_in_order(old(self).tokens@) ==> args_nest(
                final(self).span_from(old(self).current as int),
                v,
                0,
            )),
        decreases old(self).tokens.len() - old(self).current, 2nat,
    {
        let ghost t = self.tokens@;
        self.consume(Token::LParen, "expected '('")?;
        let mut args: Vec<Expr> = Vec::new();
        if self.check(Token::RParen) {
            self.advance();
            proof {
                lemma_exprs_view(args, 0);
            }
            return Ok(args);
        }
        assert(views_of(args@) =~= Seq::<ExprView>::empty());
        loop
            invariant
                self.wf(),
                self.tokens@ == old(self).tokens@,
                t == old(self).tokens@,
                old(self).current < self.current,
                kind_at(t, old(self).current as int) == Token::LParen,
                p_args_start(t, old(self).current + 1) == p_args_list(t, self.current as int, views_of(args@)),
                spans_in_order(t) ==> forall|m: int| 0 <= m < args.len() ==> within(
                    #[trigger] args@[m].span_of(),
                    self.span_from(old(self).current as int),
                ) && spans_nest(args@[m]),
            decreases self.tokens.len() - self.current,
        {
            let ghost before = args@;
            let ghost j = self.current as int;
            let arg = self.expression()?;
            let ghost k = self.current as int;
            args.push(arg);
            assert(views_of(args@) =~= views_of(before).push(expr_view(arg)));
            let ghost c0 = old(self).current as int;
            let matched = self.match_token(Token::Comma);
            if !matched {
                self.consume(Token::RParen, "expected ')' after arguments")?;
            }
            proof {
                lemma_args_grow(t, before, args@, c0, j, k, self.current as int);
            }
            if !matched {
                proof {
                    if spans_in_order(t) {
                        lemma_args_nest(self.span_from(c0), args, 0);
                    }
                    assert(kind_at(t, k) == Token::RParen);
                    assert(p_args_list(t, j, views_of(before)) == Some((views_of(args@), k + 1)));
                    lemma_exprs_view(args, 0);
                    assert forall|m: int| 0 <= m < args.len() implies #[trigger] exprs_view(args, 0)[m] == views_of(args@)[m] by {
                        assert(exprs_view(args, 0)[m] == expr_view(args@[m + 0]));
                    }
                    assert(exprs_view(args, 0) =~= views_of(args@));
                }
                return Ok(args);
            }
        }
    }

    /// primary := literal | name | "(" expression ")"
    #[verifier::rlimit(60)]
    fn primary(&mut self) -> (r: Result<Expr, CompilerError>)
        requires
            old(self).wf(),
        ensures
            expr_parsed(old(self), final(self), r),
            as_grammar(final(self), r, p_primary(old(self).tokens@, old(self).current as int)),
        decreases old(self).tokens.len() - old(self).current, 1nat,
    {
        let start = self.current;
        if self.is_at_end() {
            return Err(self.error("expected expression"));
        }
        let span = self.here();
        match self.peek() {
            Token::IntLiteral => {
                proof {
                    if all_digits(self.tokens@[start as int].text@) {
                        lemma_digits_value_nonneg(self.tokens@[start as int].text@);
                    }
                }
                match parse_int(self.tokens[start].text.as_str()) {
                    Some(v) => {
                        self.advance();
                        Ok(Expr::Literal(Literal::Int(v, span)))
                    },
                    None => Err(self.error("integer literal out of range")),
                }
            },
            Token::FloatLiteral => {
                let text = self.tokens[start].text.clone();
                self.advance();
                Ok(Expr::Literal(Literal::Float(text, span)))
            },
            Token::StringLiteral => {
                let value = unquote(&self.tokens[start].text);
                assert(value@ =~= unquoted(self.tokens@[start as int].text@));
                self.advance();
                Ok(Expr::Literal(Literal::String(value, span)))
            },
            Token::True => {
                self.advance();
                Ok(Expr::Literal(Literal::Bool(true, span)))
            },
            Token::False => {
                self.advance();
                Ok(Expr::Literal(Literal::Bool(false, span)))
            },
            Token::Ident => {
                let name = self.tokens[start].text.clone();
                self.advance();
                Ok(Expr::Identifier(Identifier { name, span }))
            },
            Token::LParen => {
                self.advance();
                let inner = self.expression()?;
                self.consume(Token::RParen, "expected ')' after expression")?;
                let ghost t = self.tokens@;
                proof {
                    if spans_in_order(t) {
                        lemma_span_order(t, start as int, start + 1);
                        lemma_span_order(t, self.current - 2, self.current - 1);
                    }
                }
                Ok(regroup(inner, self.span_from_exec(start)))
            },
            _ => Err(self.error("expected expression")),
        }
    }
}

/// The same expression with its outermost span widened to `span` (used for
/// a parenthesized group, whose extent includes the parentheses).
fn regroup(e: Expr, span: Span) -> (r: Expr)
    ensures
        r.span_of() == span,
        expr_view(r) == expr_view(e),
        spans_nest(e) && span.start <= e.span_of().start && e.span_of().end <= span.end ==> spans_nest(r),
{
    proof {
        if e is Call && spans_nest(e) && span.start <= e.span_of().start && e.span_of().end <= span.end {
            lemma_args_nest_widen(e->Call_0.span, span, e->Call_0.arguments, 0);
        }
    }
    match e {
        Expr::Binary(b) => Expr::Binary(BinaryExpr { span, ..b }),
        Expr::Unary(u) => Expr::Unary(UnaryExpr { span, ..u }),
        Expr::Literal(l) => Expr::Literal(match l {
            Literal::Int(v, _) => Literal::Int(v, span),
            Literal::Float(v, _) => Literal::Float(v, span),
            Literal::Bool(v, _) => Literal::Bool(v, span),
            Literal::String(v, _) => Literal::String(v, span),
        }),
        Expr::Identifier(i) => Expr::Identifier(Identifier { span, ..i }),
        Expr::Call(c) => Expr::Call(FunctionCall { span, ..c }),
        Expr::Assign(a) => Expr::Assign(AssignExpr { span, ..a }),
    }
}

/// The text of a string literal without its surrounding quotes.
pub fn unquote(text: &String) -> (r: String)
    ensures
        text@.len() >= 2 ==> r@ == text@.subrange(1, text@.len() - 1),
        text@.len() < 2 ==> r@.len() == 0,
{
    let chars = chars_of(text.as_str());
    if chars.len() < 2 {
        return String::new();
    }
    string_of(&chars, 1, chars.len() - 1)
}

pub open spec fn stmt_as_grammar(after: &Parser, r: Result<Stmt, CompilerError>, o: Option<(StmtView, int)>) -> bool {
    match o {
        Some((v, j)) => r matches Ok(st) && stmt_view(st) == v && after.current == j,
        None => r is Err,
    }
}

pub open spec fn stmt_parsed(before: &Parser, after: &Parser, r: Result<Stmt, CompilerError>) -> bool {
    &&& before.step(after, r is Ok)
    &&& r matches Ok(st) ==> st.span_of() == after.span_from(before.current as int)
    &&& r matches Err(e) ==> e is ParserError
}

pub open spec fn block_parsed(before: &Parser, after: &Parser, r: Result<Block, CompilerError>) -> bool {
    &&& before.step(after, r is Ok)
    &&& r matches Ok(b) ==> b.span == after.span_from(before.current as int)
    &&& r matches Err(e) ==> e is ParserError
}

pub open spec fn decl_parsed(before: &Parser, after: &Parser, r: Result<Declaration, CompilerError>) -> bool {
    &&& before.step(after, r is Ok)
    &&& r matches Ok(d) ==> d.span_of() == after.span_from(before.current as int)
    &&& r matches Err(e) ==> e is ParserError
}

/// The type named by a type token.
pub open spec fn type_of_token(t: Token) -> Option<Type> {
    match t {
        Token::I32 => Some(Type::I32),
        Token::I64 => Some(Type::I64),
        Token::I8 => Some(Type::I8),
        Token::I16 => Some(Type::I16),
        Token::I128 => Some(Type::I128),
        Token::F32 => Some(Type::F32),
        Token::StringType => Some(Type::String),
        Token::F64 => Some(Type::F64),
        Token::Bool => Some(Type::Bool),
        Token::Str => Some(Type::Str),
        _ => None,
    }
}

impl Parser {
    /// type := "i8" | "i16" | "i32" | "i64" | "i128" | "f32" | "f64" | "bool" | "str" | "String"
    pub fn type_annotation(&mut self) -> (r: Result<Type, CompilerError>)
        requires
            old(self).wf(),
        ensures
            old(self).step(final(self), r is Ok),
            r is Ok <==> type_of_token(kind_at(old(self).tokens@, old(self).current as int)) is Some,
            r matches Ok(t) ==> final(self).current == old(self).current + 1
                && type_of_token(kind_at(old(self).tokens@, old(self).current as int)) == Some(t),
            r matches Err(e) ==> e is ParserError,
    {
        let t = match self.peek() {
            Token::I32 => Type::I32,
            Token::I64 => Type::I64,
            Token::I8 => Type::I8,
            Token::I16 => Type::I16,
            Token::I128 => Type::I128,
            Token::F32 => Type::F32,
            Token::StringType => Type::String,
            Token::F64 => Type::F64,
            Token::Bool => Type::Bool,
            Token::Str => Type::Str,
            _ => return Err(self.error("expected a type")),
        };
        self.advance();
        Ok(t)
    }

    /// The text of an identifier token, consumed.
    fn name(&mut self, message: &str) -> (r: Result<String, CompilerError>)
        requires
            old(self).wf(),
        ensures
            old(self).step(final(self), r is Ok),
            r is Ok <==> kind_at(old(self).tokens@, old(self).current as int) == Token::Ident,
            r is Ok ==> final(self).current == old(self).current + 1
                && old(self).tokens@[old(self).current as int].token == Token::Ident
                && r->Ok_0@ == old(self).tokens@[old(self).current as int].text@,
            r matches Err(e) ==> e is ParserError,
    {
        if !self.check(Token::Ident) {
            return Err(self.error(message));
        }
        let name = self.tokens[self.current].text.clone();
        self.advance();
        Ok(name)
    }

    /// statement := let | return | block | if | while | for | println | expression ";"
    fn statement(&mut self) -> (r: Result<Stmt, CompilerError>)
        requires
            old(self).wf(),
        ensures
            stmt_parsed(old(self), final(self), r),
            stmt_as_grammar(final(self), r, p_statement(old(self).tokens@, old(self).current as int)),
        decreases old(self).tokens.len() - old(self).current, 3nat,
    {
        match self.peek() {
            Token::Let => {
                let v = self.let_declaration()?;
                Ok(Stmt::Declaration(Declaration::Variable(v)))
            },
            Token::Return => self.return_statement(),
            Token::LBrace => {
                let b = self.block()?;
                Ok(Stmt::Block(b))
            },
            Token::If => self.if_statement(),
            Token::While => self.while_statement(),
            Token::For => self.for_statement(),
            Token::PrintlnMacro => self.println_statement(),
            _ => self.expression_statement(),
        }
    }

    /// block := "{" { statement } "}"
    fn block(&mut self) -> (r: Result<Block, CompilerError>)
        requires
            old(self).wf(),
        ensures
            block_parsed(old(self), final(self), r),
            match p_block(old(self).tokens@, old(self).current as int) {
                Some((v, j)) => r matches Ok(b) && stmts_view(b.statements, 0) == v && final(self).current == j,
                None => r is Err,
            },
        decreases old(self).tokens.len() - old(self).current, 2nat,
    {
        let ghost t = self.tokens@;
        let start = self.current;
        self.consume(Token::LBrace, "expected '{'")?;
        let mut statements: Vec<Stmt> = Vec::new();
        assert(statements@.map_values(|x: Stmt| stmt_view(x)) =~= Seq::<StmtView>::empty());
        while !self.check(Token::RBrace) && !self.is_at_end()
            invariant
                self.wf(),
                self.tokens@ == t,
                t == old(self).tokens@,
                start == old(self).current,
                start < self.current,
                p_block(t, start as int) == p_block_items(t, self.current as int, statements@.map_values(|x: Stmt| stmt_view(x))),
            decreases self.tokens.len() - self.current,
        {
            let ghost before = statements@;
            let st = self.statement()?;
            statements.push(st);
            assert(statements@.map_values(|x: Stmt| stmt_view(x)) =~= before.map_values(|x: Stmt| stmt_view(x)).push(stmt_view(st)));
        }
        self.consume(Token::RBrace, "expected '}' after block")?;
        proof {
            lemma_stmts_view(statements, 0);
            assert forall|m: int| 0 <= m < statements.len() implies #[trigger] stmts_view(statements, 0)[m]
                == statements@.map_values(|x: Stmt| stmt_view(x))[m] by {
                assert(stmts_view(statements, 0)[m] == stmt_view(statements@[m + 0]));
            }
            assert(stmts_view(statements, 0) =~= statements@.map_values(|x: Stmt| stmt_view(x)));
        }
        let span = self.span_from_exec(start);
        Ok(Block { statements, span })
    }

    /// if := "if" expression block [ "else" ( if | block ) ]
    fn if_statement(&mut self) -> (r: Result<Stmt, CompilerError>)
        requires
            old(self).wf(),
        ensures
            stmt_parsed(old(self), final(self), r),
            stmt_as_grammar(final(self), r, p_if(old(self).tokens@, old(self).current as int)),
        decreases old(self).tokens.len() - old(self).current, 2nat,
    {
        let ghost t = self.tokens@;
        let start = self.current;
        self.consume(Token::If, "expected 'if'")?;
        let condition = self.expression()?;
        let ghost j = self.current as int;
        let then_branch = self.block()?;
        let ghost k = self.current as int;
        assert(start < j <= t.len() && j < k <= t.len());
        let else_branch = if self.match_token(Token::Else) {
            if self.check(Token::If) {
                let nested = self.if_statement()?;
                Some(Box::new(nested))
            } else {
                let b = match self.block() {
                    Ok(b) => b,
                    Err(e) => {
                        assert(p_block(t, k + 1) is None);
                        assert(p_if(t, start as int) is None);
                        return Err(e);
                    },
                };
                assert(stmt_view(Stmt::Block(b)) == StmtView::Block(stmts_view(b.statements, 0)));
                Some(Box::new(Stmt::Block(b)))
            }
        } else {
            None
        };
        let span = self.span_from_exec(start);
        Ok(Stmt::If(IfStmt { condition, then_branch, else_branch, span }))
    }

    /// while := "while" expression block
    fn while_statement(&mut self) -> (r: Result<Stmt, CompilerError>)
        requires
            old(self).wf(),
        ensures
            stmt_parsed(old(self), final(self), r),
            stmt_as_grammar(final(self), r, p_while(old(self).tokens@, old(self).current as int)),
        decreases old(self).tokens.len() - old(self).current, 2nat,
    {
        let start = self.current;
        self.consume(Token::While, "expected 'while'")?;
        let condition = self.expression()?;
        let body = self.block()?;
        let span = self.span_from_exec(start);
        Ok(Stmt::While(WhileStmt { condition, body, span }))
    }

    /// for := "for" name "in" expression ".." expression block
    fn for_statement(&mut self) -> (r: Result<Stmt, CompilerError>)
        requires
            old(self).wf(),
        ensures
            stmt_parsed(old(self), final(self), r),
            stmt_as_grammar(final(self), r, p_for(old(self).tokens@, old(self).current as int)),
        decreases old(self).tokens.len() - old(self).current, 2nat,
    {
        let start = self.current;
        self.consume(Token::For, "expected 'for'")?;
        let variable = self.name("expected a loop variable after 'for'")?;
        self.consume(Token::In, "expected 'in' after the loop variable")?;
        let low = self.expression()?;
        self.consume(Token::DotDot, "expected '..' in range")?;
        let high = self.expression()?;
        let body = self.block()?;
        let span = self.span_from_exec(start);
        Ok(Stmt::For(ForStmt { variable, start: low, end: high, body, span }))
    }

    /// return := "return" [ expression ] ";"
    fn return_statement(&mut self) -> (r: Result<Stmt, CompilerError>)
        requires
            old(self).wf(),
        ensures
            stmt_parsed(old(self), final(self), r),
            stmt_as_grammar(final(self), r, p_return(old(self).tokens@, old(self).current as int)),
    {
        let start = self.current;
        self.consume(Token::Return, "expected 'return'")?;
        let value = if self.check(Token::Semicolon) {
            None
        } else {
            Some(self.expression()?)
        };
        self.consume(Token::Semicolon, "expected ';' after return")?;
        let span = self.span_from_exec(start);
        Ok(Stmt::Return(ReturnStmt { value, span }))
    }

    /// println := "println!" "(" [ expression { "," expression } ] ")" ";"
    fn println_statement(&mut self) -> (r: Result<Stmt, CompilerError>)
        requires
            old(self).wf(),
        ensures
            stmt_parsed(old(self), final(self), r),
            stmt_as_grammar(final(self), r, p_println(old(self).tokens@, old(self).current as int)),
    {
        let start = self.current;
        self.consume(Token::PrintlnMacro, "expected 'println!'")?;
        let args = self.arguments()?;
        self.consume(Token::Semicolon, "expected ';' after println!")?;
        let span = self.span_from_exec(start);
        Ok(Stmt::Println(PrintStmt { args, span }))
    }

    /// expression ";"
    fn expression_statement(&mut self) -> (r: Result<Stmt, CompilerError>)
        requires
            old(self).wf(),
        ensures
            stmt_parsed(old(self), final(self), r),
            stmt_as_grammar(final(self), r, p_expr_stmt(old(self).tokens@, old(self).current as int)),
    {
        let start = self.current;
        let expr = self.expression()?;
        self.consume(Token::Semicolon, "expected ';' after expression")?;
        let span = self.span_from_exec(start);
        Ok(Stmt::Expr(ExprStmt { expr, span }))
    }

    /// let := "let" [ "mut" ] name [ ":" type ] "=" expression ";"
    fn let_declaration(&mut self) -> (r: Result<VariableDecl, CompilerError>)
        requires
            old(self).wf(),
        ensures
            old(self).step(final(self), r is Ok),
            r matches Ok(v) ==> v.span == final(self).span_from(old(self).current as int),
            r matches Err(e) ==> e is ParserError,
            match p_let(old(self).tokens@, old(self).current as int) {
                Some((d, j)) => r matches Ok(v) && decl_view(Declaration::Variable(v)) == d && final(self).current == j,
                None => r is Err,
            },
    {
        let start = self.current;
        self.consume(Token::Let, "expected 'let'")?;
        let is_mutable = self.match_token(Token::Mut);
        let name = self.name("expected a variable name")?;
        let typ = if self.match_token(Token::Colon) {
            Some(self.type_annotation()?)
        } else {
            None
        };
        self.consume(Token::Assign, "expected '=' and an initializer")?;
        let initializer = self.expression()?;
        self.consume(Token::Semicolon, "expected ';' after declaration")?;
        let span = self.span_from_exec(start);
        Ok(VariableDecl { name, typ, is_mutable, initializer, span })
    }

    /// parameter := name ":" type
    fn parameter(&mut self) -> (r: Result<Parameter, CompilerError>)
        requires
            old(self).wf(),
        ensures
            old(self).step(final(self), r is Ok),
            r matches Ok(p) ==> p.span == final(self).span_from(old(self).current as int),
            r matches Err(e) ==> e is ParserError,
            ({
                let t = old(self).tokens@;
                let j = old(self).current as int;
                if kind_at(t, j) == Token::Ident && kind_at(t, j + 1) == Token::Colon
                    && type_of_token(kind_at(t, j + 2)) is Some {
                    r matches Ok(p) && p.name@ == t[j].text@ && Some(p.typ) == type_of_token(kind_at(t, j + 2))
                        && final(self).current == j + 3
                } else {
                    r is Err
                }
            }),
    {
        let start = self.current;
        let name = self.name("expected a parameter name")?;
        self.consume(Token::Colon, "expected ':' after the parameter name")?;
        let typ = self.type_annotation()?;
        let span = self.span_from_exec(start);
        Ok(Parameter { name, typ, span })
    }

    /// [ parameter { "," parameter } ], up to but not including ")".
    fn parameters(&mut self) -> (r: Result<Vec<Parameter>, CompilerError>)
        requires
            old(self).wf(),
        ensures
            final(self).tokens@ == old(self).tokens@,
            old(self).current <= final(self).current <= final(self).tokens.len(),
            r matches Err(e) ==> e is ParserError,
            match p_param_list(old(self).tokens@, old(self).current as int) {
                Some((ps, j)) => r matches Ok(v) && params_view(v@) == ps && final(self).current == j,
                None => r is Err,
            },
    {
        let ghost t = self.tokens@;
        let ghost start = self.current as int;
        let mut params: Vec<Parameter> = Vec::new();
        let ghost ps = p_param_list(t, start);
        if !self.check(Token::RParen) {
            assert(params_view(params@) =~= Seq::<(Seq<char>, Type)>::empty());
            loop
                invariant_except_break
                    ps == p_params(t, self.current as int, params_view(params@)),
                invariant
                    self.wf(),
                    self.tokens@ == t,
                    t == old(self).tokens@,
                    start <= self.current,
                    start == old(self).current,
                    ps == p_param_list(t, start),
                ensures
                    self.wf(),
                    self.tokens@ == t,
                    start <= self.current,
                    ps == Some((params_view(params@), self.current as int)),
                decreases self.tokens.len() - self.current,
            {
                let ghost before = params@;
                let ghost j = self.current as int;
                let p = match self.parameter() {
                    Ok(p) => p,
                    Err(e) => {
                        assert(p_params(t, j, params_view(before)) is None);
                        return Err(e);
                    },
                };
                params.push(p);
                assert(params_view(params@) =~= params_view(before).push((p.name@, p.typ)));
                if !self.match_token(Token::Comma) {
                    assert(p_params(t, j, params_view(before)) == Some((params_view(params@), j + 3)));
                    break;
                }
                assert(p_params(t, j, params_view(before)) == p_params(t, j + 4, params_view(params@)));
            }
        } else {
            assert(params_view(params@) =~= Seq::<(Seq<char>, Type)>::empty());
        }
        Ok(params)
    }

    /// function := "fn" name "(" [ parameter { "," parameter } ] ")" [ "->" type ] block
    fn function_declaration(&mut self) -> (r: Result<FunctionDecl, CompilerError>)
        requires
            old(self).wf(),
        ensures
            old(self).step(final(self), r is Ok),
            r matches Ok(f) ==> f.span == final(self).span_from(old(self).current as int),
            r matches Err(e) ==> e is ParserError,
            match p_function(old(self).tokens@, old(self).current as int) {
                Some((d, j)) => r matches Ok(f) && decl_view(Declaration::Function(f)) == d && final(self).current == j,
                None => r is Err,
            },
    {
        let ghost t = self.tokens@;
        let start = self.current;
        self.consume(Token::Fn, "expected 'fn'")?;
        let name = self.name("expected a function name")?;
        self.consume(Token::LParen, "expected '(' after the function name")?;
        let params = self.parameters()?;
        self.consume(Token::RParen, "expected ')' after the parameters")?;
        let return_type = if self.match_token(Token::Arrow) {
            Some(self.type_annotation()?)
        } else {
            None
        };
        let body = self.block()?;
        let span = self.span_from_exec(start);
        Ok(FunctionDecl { name, params, return_type, body, span })
    }

    /// declaration := function | let
    fn declaration(&mut self) -> (r: Result<Declaration, CompilerError>)
        requires
            old(self).wf(),
        ensures
            decl_parsed(old(self), final(self), r),
            match p_declaration(old(self).tokens@, old(self).current as int) {
                Some((d, j)) => r matches Ok(x) && decl_view(x) == d && final(self).current == j,
                None => r is Err,
            },
    {
        match self.peek() {
            Token::Fn => Ok(Declaration::Function(self.function_declaration()?)),
            Token::Let => Ok(Declaration::Variable(self.let_declaration()?)),
            _ => Err(self.error("expected a declaration")),
        }
    }

    /// program := { declaration }, up to the end of the tokens.
    /// On success every token has been consumed and the declarations are
    /// those the grammar gives; a failure is a parser error.
    pub fn parse(&mut self) -> (r: Result<Program, CompilerError>)
        requires
            old(self).wf(),
        ensures
            final(self).tokens@ == old(self).tokens@,
            r is Ok ==> final(self).current == final(self).tokens.len(),
            r matches Ok(p) ==> p.span == program_span(old(self).tokens@),
            r matches Err(e) ==> e is ParserError,
            match p_program(old(self).tokens@, old(self).current as int, Seq::empty()) {
                Some(ds) => r matches Ok(p) && p.declarations@.map_values(|d: Declaration| decl_view(d)) == ds,
                None => r is Err,
            },
    {
        let ghost t = self.tokens@;
        let mut declarations: Vec<Declaration> = Vec::new();
        assert(declarations@.map_values(|d: Declaration| decl_view(d)) =~= Seq::<DeclView>::empty());
        while !self.is_at_end()
            invariant
                self.wf(),
                self.tokens@ == t,
                t == old(self).tokens@,
                old(self).current <= self.current,
                p_program(t, old(self).current as int, Seq::empty()) == p_program(
                    t,
                    self.current as int,
                    declarations@.map_values(|d: Declaration| decl_view(d)),
                ),
            decreases self.tokens.len() - self.current,
        {
            let ghost before = declarations@;
            let d = self.declaration()?;
            declarations.push(d);
            assert(declarations@.map_values(|x: Declaration| decl_view(x)) =~= before.map_values(|x: Declaration| decl_view(x)).push(decl_view(d)));
        }
        let end = if self.tokens.len() > 0 { self.tokens[self.tokens.len() - 1].span.1 } else { 0 };
        Ok(Program { declarations, span: Span::new(0, end) })
    }

    /// A single expression that must use up every token.
    pub fn parse_expression(&mut self) -> (r: Result<Expr, CompilerError>)
        requires
            old(self).wf(),
        ensures
            final(self).tokens@ == old(self).tokens@,
            r is Ok ==> old(self).current < final(self).current == final(self).tokens.len(),
            r matches Ok(e) ==> e.span_of() == final(self).span_from(old(self).current as int),
            r matches Ok(e) ==> (spans_in_order(old(self).tokens@) ==> spans_nest(e)),
            r matches Err(e) ==> e is ParserError,
            match p_expression(old(self).tokens@, old(self).current as int) {
                Some((v, j)) => if j == old(self).tokens.len() {
                    r matches Ok(e) && expr_view(e) == v
                } else {
                    r is Err
                },
                None => r is Err,
            },
    {
        let e = self.expression()?;
        if !self.is_at_end() {
            return Err(self.error("unexpected token after expression"));
        }
        Ok(e)
    }
}

/// The span of a whole program: from offset 0 to the end of its last token.
pub open spec fn program_span(toks: Seq<TokenWithSpan>) -> Span {
    Span { start: 0, end: if toks.len() > 0 { toks[toks.len() - 1].span.1 } else { 0 } }
}

/// `r` is what the grammar makes of the tokens `v`: the declarations it gives, or a failure.
pub open spec fn program_parsed(v: Seq<TokenWithSpan>, r: Result<Program, CompilerError>) -> bool {
    match p_program(v, 0, Seq::empty()) {
        Some(ds) => r matches Ok(p) && p.declarations@.map_values(|d: Declaration| decl_view(d)) == ds
            && p.span == program_span(v),
        None => r is Err,
    }
}

/// Parses a source text whole: its tokens, then a program.
pub struct AstParser {
    source: String,
}

impl AstParser {
    pub fn new(source: &str) -> (r: AstParser)
        ensures
            r.source()@ == source@,
    {
        AstParser { source: String::from_str(source) }
    }

    pub closed spec fn source(&self) -> String {
        self.source
    }

    /// Tokenizes then parses the source: a lexer error when the text does not
    /// tokenize, else the parser's result on those tokens.
    pub fn parse(&self) -> (r: Result<Program, CompilerError>)
        ensures
            lex(self.source()@) is Err ==> (r is Err && r->Err_0 is LexerError),
            lex(self.source()@) is Ok ==> (r is Err ==> r->Err_0 is ParserError),
            lex(self.source()@) is Ok ==> exists|v: Seq<TokenWithSpan>|
                tokens_match(self.source()@, v, lex(self.source()@)->Ok_0) && #[trigger] program_parsed(v, r),
    {
        let tokens = tokenize(self.source.as_str())?;
        let ghost v = tokens@;
        let mut parser = Parser::new(tokens);
        let r = parser.parse();
        assert(program_parsed(v, r));
        r
    }
}

} // verus!

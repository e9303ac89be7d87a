use vstd::prelude::*;
use crate::span::{Node, Span};

verus! {

/// The type names a program can write. The checker treats every integer
/// width as an integer, `f32` and `f64` as floats, and `str` and `String` as
/// strings.
#[derive(Debug, Clone, Copy, PartialEq, Eq, Structural)]
pub enum Type {
    I8,
    I16,
    I32,
    I64,
    I128,
    F32,
    F64,
    Bool,
    Str,
    String,
}

/// A whole program: its top-level declarations, in order.
#[derive(Debug)]
pub struct Program {
    pub declarations: Vec<Declaration>,
    pub span: Span,
}

#[derive(Debug)]
pub enum Declaration {
    Function(FunctionDecl),
    Variable(VariableDecl),
}

#[derive(Debug)]
pub struct FunctionDecl {
    pub name: String,
    pub params: Vec<Parameter>,
    pub return_type: Option<Type>,
    pub body: Block,
    pub span: Span,
}

#[derive(Debug, Clone)]
pub struct Parameter {
    pub name: String,
    pub typ: Type,
    pub span: Span,
}

/// `let [mut] name [: type] = initializer;`
#[derive(Debug)]
pub struct VariableDecl {
    pub name: String,
    pub typ: Option<Type>,
    pub is_mutable: bool,
    pub initializer: Expr,
    pub span: Span,
}

#[derive(Debug)]
pub enum Stmt {
    Expr(ExprStmt),
    Declaration(Declaration),
    If(IfStmt),
    While(WhileStmt),
    For(ForStmt),
    Return(ReturnStmt),
    Block(Block),
    Println(PrintStmt),
}

#[derive(Debug)]
pub struct ExprStmt {
    pub expr: Expr,
    pub span: Span,
}

/// `if condition { ... } [else ...]`; the else branch is a block or another `if`.
#[derive(Debug)]
pub struct IfStmt {
    pub condition: Expr,
    pub then_branch: Block,
    pub else_branch: Option<Box<Stmt>>,
    pub span: Span,
}

#[derive(Debug)]
pub struct WhileStmt {
    pub condition: Expr,
    pub body: Block,
    pub span: Span,
}

/// `for variable in start..end { body }`
#[derive(Debug)]
pub struct ForStmt {
    pub variable: String,
    pub start: Expr,
    pub end: Expr,
    pub body: Block,
    pub span: Span,
}

#[derive(Debug)]
pub struct ReturnStmt {
    pub value: Option<Expr>,
    pub span: Span,
}

#[derive(Debug)]
pub struct Block {
    pub statements: Vec<Stmt>,
    pub span: Span,
}

/// `println!(template, args...)`; the first argument, when a string literal, is the template.
#[derive(Debug)]
pub struct PrintStmt {
    pub args: Vec<Expr>,
    pub span: Span,
}

#[derive(Debug)]
pub enum Expr {
    Binary(BinaryExpr),
    Unary(UnaryExpr),
    Literal(Literal),
    Identifier(Identifier),
    Call(FunctionCall),
    Assign(AssignExpr),
}

#[derive(Debug, Clone, Copy, PartialEq, Eq, Structural)]
pub enum BinaryOp {
    Add,
    Sub,
    Mul,
    Div,
    Mod,
    Eq,
    NotEq,
    Lt,
    LtEq,
    Gt,
    GtEq,
    And,
    Or,
}

#[derive(Debug)]
pub struct BinaryExpr {
    pub left: Box<Expr>,
    pub op: BinaryOp,
    pub right: Box<Expr>,
    pub span: Span,
}

/// A unary operator. Source text spells negation `-x` and `+x`; logical not
/// has no spelling of its own, since a lone `!` is a lexical error (write
/// `x == false`). `Not` is there for trees built directly.
#[derive(Debug, Clone, Copy, PartialEq, Eq, Structural)]
pub enum UnaryOp {
    Neg,
    Pos,
    Not,
}

#[derive(Debug)]
pub struct UnaryExpr {
    pub op: UnaryOp,
    pub expr: Box<Expr>,
    pub span: Span,
}

#[derive(Debug)]
pub struct AssignExpr {
    pub target: Box<Expr>,
    pub value: Box<Expr>,
    pub span: Span,
}

/// A literal value. A float literal keeps its decimal text.
#[derive(Debug, Clone)]
pub enum Literal {
    Int(i32, Span),
    Float(String, Span),
    Bool(bool, Span),
    String(String, Span),
}

#[derive(Debug, Clone)]
pub struct Identifier {
    pub name: String,
    pub span: Span,
}

#[derive(Debug)]
pub struct FunctionCall {
    pub callee: Box<Expr>,
    pub arguments: Vec<Expr>,
    pub span: Span,
}

impl Literal {
    pub open spec fn span_of(&self) -> Span {
        match self {
            Literal::Int(_, s) => *s,
            Literal::Float(_, s) => *s,
            Literal::Bool(_, s) => *s,
            Literal::String(_, s) => *s,
        }
    }
}

impl Expr {
    pub open spec fn span_of(&self) -> Span {
        match self {
            Expr::Binary(b) => b.span,
            Expr::Unary(u) => u.span,
            Expr::Literal(l) => l.span_of(),
            Expr::Identifier(i) => i.span,
            Expr::Call(c) => c.span,
            Expr::Assign(a) => a.span,
        }
    }
}

impl Declaration {
    pub open spec fn span_of(&self) -> Span {
        match self {
            Declaration::Function(f) => f.span,
            Declaration::Variable(v) => v.span,
        }
    }
}

impl Stmt {
    pub open spec fn span_of(&self) -> Span {
        match self {
            Stmt::Expr(e) => e.span,
            Stmt::Declaration(d) => d.span_of(),
            Stmt::If(i) => i.span,
            Stmt::While(w) => w.span,
            Stmt::For(f) => f.span,
            Stmt::Return(r) => r.span,
            Stmt::Block(b) => b.span,
            Stmt::Println(p) => p.span,
        }
    }
}

impl Node for Literal {
    open spec fn span_spec(&self) -> Span {
        self.span_of()
    }

    fn span(&self) -> Span {
        match self {
            Literal::Int(_, s) => *s,
            Literal::Float(_, s) => *s,
            Literal::Bool(_, s) => *s,
            Literal::String(_, s) => *s,
        }
    }
}

impl Node for Expr {
    open spec fn span_spec(&self) -> Span {
        self.span_of()
    }

    fn span(&self) -> Span {
        match self {
            Expr::Binary(b) => b.span,
            Expr::Unary(u) => u.span,
            Expr::Literal(l) => l.span(),
            Expr::Identifier(i) => i.span,
            Expr::Call(c) => c.span,
            Expr::Assign(a) => a.span,
        }
    }
}

impl Node for Declaration {
    open spec fn span_spec(&self) -> Span {
        self.span_of()
    }

    fn span(&self) -> Span {
        match self {
            Declaration::Function(f) => f.span,
            Declaration::Variable(v) => v.span,
        }
    }
}

impl Node for Stmt {
    open spec fn span_spec(&self) -> Span {
        self.span_of()
    }

    fn span(&self) -> Span {
        match self {
            Stmt::Expr(e) => e.span,
            Stmt::Declaration(d) => d.span(),
            Stmt::If(i) => i.span,
            Stmt::While(w) => w.span,
            Stmt::For(f) => f.span,
            Stmt::Return(r) => r.span,
            Stmt::Block(b) => b.span,
            Stmt::Println(p) => p.span,
        }
    }
}

impl Node for Program {
    open spec fn span_spec(&self) -> Span {
        self.span
    }

    fn span(&self) -> Span {
        self.span
    }
}

impl Node for FunctionDecl {
    open spec fn span_spec(&self) -> Span {
        self.span
    }

    fn span(&self) -> Span {
        self.span
    }
}

impl Node for Parameter {
    open spec fn span_spec(&self) -> Span {
        self.span
    }

    fn span(&self) -> Span {
        self.span
    }
}

impl Node for VariableDecl {
    open spec fn span_spec(&self) -> Span {
        self.span
    }

    fn span(&self) -> Span {
        self.span
    }
}

impl Node for Block {
    open spec fn span_spec(&self) -> Span {
        self.span
    }

    fn span(&self) -> Span {
        self.span
    }
}

impl Node for Identifier {
    open spec fn span_spec(&self) -> Span {
        self.span
    }

    fn span(&self) -> Span {
        self.span
    }
}

} // verus!

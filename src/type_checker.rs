use vstd::prelude::*;
use crate::ast;
use crate::ast::{
    BinaryOp, Block, Declaration, Expr, FunctionCall, FunctionDecl, Identifier, Literal, Parameter,
    Program, Stmt, UnaryOp, VariableDecl,
};
use crate::error::CompilerError;
use crate::span::{Node, Span};
use crate::text::{append, append_decimal, decimal};
use crate::types::{
    copy_type, env_find, lemma_types_view, from_ast_type, type_of_ast, type_text, types_equal, types_view, Scope,
    Type, TypeEnvironment, TypeView,
};

verus! {

broadcast use vstd::std_specs::vec::group_vec_axioms;

pub open spec fn literal_type(l: Literal) -> TypeView {
    match l {
        Literal::Int(..) => TypeView::Int,
        Literal::Float(..) => TypeView::Float,
        Literal::Bool(..) => TypeView::Bool,
        Literal::String(..) => TypeView::String,
    }
}

pub open spec fn is_numeric(t: TypeView) -> bool {
    t is Int || t is Float
}

/// Arithmetic: two integers give an integer; two numbers of which one is a
/// float give a float; anything else is an error.
pub open spec fn arith_result(l: TypeView, r: TypeView) -> Option<TypeView> {
    if l is Int && r is Int {
        Some(TypeView::Int)
    } else if is_numeric(l) && is_numeric(r) {
        Some(TypeView::Float)
    } else {
        None
    }
}

pub open spec fn binary_result(op: BinaryOp, l: TypeView, r: TypeView) -> Option<TypeView> {
    match op {
        BinaryOp::Add | BinaryOp::Sub | BinaryOp::Mul | BinaryOp::Div | BinaryOp::Mod => arith_result(l, r),
        BinaryOp::Eq | BinaryOp::NotEq => if l == r { Some(TypeView::Bool) } else { None },
        BinaryOp::Lt | BinaryOp::LtEq | BinaryOp::Gt | BinaryOp::GtEq => {
            if (l is Int && r is Int) || (l is Float && r is Float) {
                Some(TypeView::Bool)
            } else {
                None
            }
        },
        BinaryOp::And | BinaryOp::Or => if l is Bool && r is Bool { Some(TypeView::Bool) } else { None },
    }
}

pub open spec fn unary_result(op: UnaryOp, t: TypeView) -> Option<TypeView> {
    match op {
        UnaryOp::Neg | UnaryOp::Pos => if is_numeric(t) { Some(t) } else { None },
        UnaryOp::Not => if t is Bool { Some(TypeView::Bool) } else { None },
    }
}

/// A type error: where it lies and what it says.
pub type TypeErr = (Span, Seq<char>);

/// How a binary operator is written.
pub open spec fn op_text(op: BinaryOp) -> Seq<char> {
    match op {
        BinaryOp::Add => "+"@,
        BinaryOp::Sub => "-"@,
        BinaryOp::Mul => "*"@,
        BinaryOp::Div => "/"@,
        BinaryOp::Mod => "%"@,
        BinaryOp::Eq => "=="@,
        BinaryOp::NotEq => "!="@,
        BinaryOp::Lt => "<"@,
        BinaryOp::LtEq => "<="@,
        BinaryOp::Gt => ">"@,
        BinaryOp::GtEq => ">="@,
        BinaryOp::And => "&&"@,
        BinaryOp::Or => "||"@,
    }
}

pub open spec fn undefined_variable(name: Seq<char>) -> Seq<char> {
    "Undefined variable: "@ + name
}

/// Checking an expression: its type, or the first type error met, the left
/// operand and the earlier arguments being checked first.
pub open spec fn expr_check(env: Seq<Scope>, e: Expr) -> Result<TypeView, TypeErr>
    decreases e, 0int,
{
    match e {
        Expr::Literal(l) => Ok(literal_type(l)),
        Expr::Identifier(i) => match env_find(env, i.name@) {
            Some(t) => Ok(t),
            None => Err((i.span, undefined_variable(i.name@))),
        },
        Expr::Binary(b) => match expr_check(env, *b.left) {
            Ok(l) => match expr_check(env, *b.right) {
                Ok(r) => match binary_result(b.op, l, r) {
                    Some(t) => Ok(t),
                    None => Err((b.span, "Cannot apply operator "@ + op_text(b.op) + " to types "@ + type_text(l) + " and "@
                        + type_text(r))),
                },
                Err(x) => Err(x),
            },
            Err(x) => Err(x),
        },
        Expr::Unary(u) => match expr_check(env, *u.expr) {
            Ok(t) => match unary_result(u.op, t) {
                Some(r) => Ok(r),
                None => Err((u.span, if u.op == UnaryOp::Not {
                    "Cannot apply logical not to value of type "@ + type_text(t)
                } else {
                    "Cannot negate value of type "@ + type_text(t)
                })),
            },
            Err(x) => Err(x),
        },
        Expr::Assign(a) => match *a.target {
            Expr::Identifier(i) => match env_find(env, i.name@) {
                Some(target) => match expr_check(env, *a.value) {
                    Ok(value) => if target == value {
                        Ok(value)
                    } else {
                        Err((a.span, "Cannot assign value of type "@ + type_text(value) + " to variable of type "@
                            + type_text(target)))
                    },
                    Err(x) => Err(x),
                },
                None => Err((i.span, undefined_variable(i.name@))),
            },
            _ => Err((a.span, "Left side of assignment must be a variable"@)),
        },
        Expr::Call(c) => match *c.callee {
            Expr::Identifier(f) => match env_find(env, f.name@) {
                Some(TypeView::Function(ps, ret)) => {
                    if ps.len() != c.arguments.len() {
                        Err((c.span, "Function "@ + f.name@ + " takes "@ + decimal(ps.len()) + " arguments but "@
                            + decimal(c.arguments.len() as nat) + " were provided"@))
                    } else {
                        match args_check(env, c.arguments, ps, 0) {
                            Ok(()) => Ok(*ret),
                            Err(x) => Err(x),
                        }
                    }
                },
                Some(_) => Err((f.span, f.name@ + " is not a function"@)),
                None => Err((f.span, "Undefined function: "@ + f.name@)),
            },
            _ => Err((c.span, "Callee must be a function name"@)),
        },
    }
}

/// Checks `args[i..]` in order against the parameter types `ps[i..]`; the
/// error names the 0-based index of the first argument that does not match.
pub open spec fn args_check(env: Seq<Scope>, args: Vec<Expr>, ps: Seq<TypeView>, i: int) -> Result<(), TypeErr>
    decreases args, args.len() - i,
{
    if 0 <= i < args.len() {
        match expr_check(env, args@[i]) {
            Ok(t) => if t == ps[i] {
                args_check(env, args, ps, i + 1)
            } else {
                Err((args@[i].span_of(), "Type mismatch in argument "@ + decimal(i as nat) + ": expected "@
                    + type_text(ps[i]) + ", found "@ + type_text(t)))
            },
            Err(x) => Err(x),
        }
    } else {
        Ok(())
    }
}

/// Checks every expression of `args[i..]` in order.
pub open spec fn all_check(env: Seq<Scope>, args: Vec<Expr>, i: int) -> Result<(), TypeErr>
    decreases args, args.len() - i,
{
    if 0 <= i < args.len() {
        match expr_check(env, args@[i]) {
            Ok(_) => all_check(env, args, i + 1),
            Err(x) => Err(x),
        }
    } else {
        Ok(())
    }
}

/// The environment whose innermost scope is replaced by `inner`.
pub open spec fn with_inner(env: Seq<Scope>, inner: Scope) -> Seq<Scope> {
    env.drop_last().push(inner)
}

pub open spec fn return_view(f: FunctionDecl) -> TypeView {
    match f.return_type {
        Some(t) => type_of_ast(t),
        None => TypeView::Unit,
    }
}

/// The scope holding a function's parameters, in order.
pub open spec fn param_scope(params: Seq<Parameter>) -> Scope {
    params.map_values(|p: Parameter| (p.name@, type_of_ast(p.typ)))
}

/// The type of a function's signature.
pub open spec fn signature_view(f: FunctionDecl) -> TypeView {
    TypeView::Function(f.params@.map_values(|p: Parameter| type_of_ast(p.typ)), Box::new(return_view(f)))
}

/// Checking a statement: its type and the innermost scope after it, or the
/// first type error. `expected` is the return type that `return` must match.
pub open spec fn stmt_check(env: Seq<Scope>, s: Stmt, expected: Option<TypeView>) -> Result<(TypeView, Scope), TypeErr>
    decreases s, 0int,
{
    match s {
        Stmt::Expr(es) => match expr_check(env, es.expr) {
            Ok(t) => Ok((t, env.last())),
            Err(x) => Err(x),
        },
        Stmt::Declaration(d) => match decl_check(env, d) {
            Ok(inner) => Ok((TypeView::Unit, inner)),
            Err(x) => Err(x),
        },
        Stmt::If(i) => match expr_check(env, i.condition) {
            Ok(c) => if c != TypeView::Bool {
                Err((i.condition.span_of(), "If condition must be a boolean, found "@ + type_text(c)))
            } else {
                match block_check(env, i.then_branch, expected) {
                    Ok(then_t) => match i.else_branch {
                        Some(b) => match stmt_check(env, *b, expected) {
                            Ok((else_t, inner)) => if then_t == else_t {
                                Ok((then_t, inner))
                            } else {
                                Err((i.span, "If and else branches have different types: "@ + type_text(then_t) + " and "@
                                    + type_text(else_t)))
                            },
                            Err(x) => Err(x),
                        },
                        None => Ok((TypeView::Unit, env.last())),
                    },
                    Err(x) => Err(x),
                }
            },
            Err(x) => Err(x),
        },
        Stmt::While(w) => match expr_check(env, w.condition) {
            Ok(c) => if c != TypeView::Bool {
                Err((w.condition.span_of(), "While condition must be a boolean, found "@ + type_text(c)))
            } else {
                match block_check(env, w.body, None) {
                    Ok(_) => Ok((TypeView::Unit, env.last())),
                    Err(x) => Err(x),
                }
            },
            Err(x) => Err(x),
        },
        Stmt::For(f) => match expr_check(env, f.start) {
            Ok(_) => match expr_check(env, f.end) {
                Ok(_) => match block_check(env.push(seq![(f.variable@, TypeView::Int)]), f.body, None) {
                    Ok(_) => Ok((TypeView::Unit, env.last())),
                    Err(x) => Err(x),
                },
                Err(x) => Err(x),
            },
            Err(x) => Err(x),
        },
        Stmt::Return(r) => {
            let rt = match r.value {
                Some(v) => expr_check(env, v),
                None => Ok(TypeView::Unit),
            };
            match rt {
                Ok(t) => match expected {
                    Some(x) => if x != t {
                        Err((r.span, "Return type mismatch: expected "@ + type_text(x) + ", found "@ + type_text(t)))
                    } else {
                        Ok((t, env.last()))
                    },
                    None => Ok((t, env.last())),
                },
                Err(x) => Err(x),
            }
        },
        Stmt::Block(b) => match block_check(env, b, expected) {
            Ok(t) => Ok((t, env.last())),
            Err(x) => Err(x),
        },
        Stmt::Println(p) => match all_check(env, p.args, 0) {
            Ok(()) => Ok((TypeView::Unit, env.last())),
            Err(x) => Err(x),
        },
    }
}

/// Checking a block (its type is that of its last statement, unit when
/// empty) in a scope of its own.
pub open spec fn block_check(env: Seq<Scope>, b: Block, expected: Option<TypeView>) -> Result<TypeView, TypeErr>
    decreases b, 0int,
{
    stmts_check(env.push(Scope::empty()), b.statements, 0, TypeView::Unit, expected)
}

/// Checks `stmts[i..]` in order; `last` is the type of the statement before `i`.
pub open spec fn stmts_check(
    env: Seq<Scope>,
    stmts: Vec<Stmt>,
    i: int,
    last: TypeView,
    expected: Option<TypeView>,
) -> Result<TypeView, TypeErr>
    decreases stmts, stmts.len() - i,
{
    if 0 <= i < stmts.len() {
        match stmt_check(env, stmts@[i], expected) {
            Ok((t, inner)) => stmts_check(with_inner(env, inner), stmts, i + 1, t, expected),
            Err(x) => Err(x),
        }
    } else {
        Ok(last)
    }
}

/// Checking a declaration: the innermost scope after it, or the first type error.
pub open spec fn decl_check(env: Seq<Scope>, d: Declaration) -> Result<Scope, TypeErr>
    decreases d, 0int,
{
    match d {
        Declaration::Function(f) => match block_check(env.push(param_scope(f.params@)), f.body, Some(return_view(f))) {
            Ok(_) => Ok(env.last()),
            Err(x) => Err(x),
        },
        Declaration::Variable(v) => match expr_check(env, v.initializer) {
            Ok(t) => match v.typ {
                Some(d) => if type_of_ast(d) != t {
                    Err((v.span, "Type mismatch: expected "@ + type_text(type_of_ast(d)) + ", found "@ + type_text(t)))
                } else {
                    Ok(env.last().push((v.name@, t)))
                },
                None => Ok(env.last().push((v.name@, t))),
            },
            Err(x) => Err(x),
        },
    }
}

/// The signatures of the functions among `ds[..n]`, in order.
pub open spec fn registered(ds: Seq<Declaration>, n: int) -> Scope
    decreases n,
{
    if n <= 0 {
        Scope::empty()
    } else {
        match ds[n - 1] {
            Declaration::Function(f) => registered(ds, n - 1).push((f.name@, signature_view(f))),
            _ => registered(ds, n - 1),
        }
    }
}

/// Checks `ds[i..]` in order in the global scope `global`.
pub open spec fn decls_check(global: Scope, ds: Seq<Declaration>, i: int) -> Result<(), TypeErr>
    decreases ds.len() - i,
{
    if 0 <= i < ds.len() {
        match decl_check(seq![global], ds[i]) {
            Ok(inner) => decls_check(inner, ds, i + 1),
            Err(x) => Err(x),
        }
    } else {
        Ok(())
    }
}

/// Checking a program: every function's signature registered first, then its
/// declarations in order; `Ok`, or the first type error.
pub open spec fn program_check(p: Program) -> Result<(), TypeErr> {
    decls_check(registered(p.declarations@, p.declarations.len() as int), p.declarations@, 0)
}

/// A program is well-typed when checking it meets no error.
pub open spec fn program_ok(p: Program) -> bool {
    program_check(p) is Ok
}

/// `e` is a type error at `x.0` saying `x.1`.
pub open spec fn is_type_error(e: CompilerError, x: TypeErr) -> bool {
    e is TypeError && e.span_view() == Some(x.0) && e.message_view() == x.1
}

/// `r` is the checker's answer for the expected outcome `t`: the type on
/// success, a type error on failure.
pub open spec fn typed_as(r: Result<Type, CompilerError>, t: Result<TypeView, TypeErr>) -> bool {
    match t {
        Ok(t) => r matches Ok(u) && u@ == t,
        Err(x) => r matches Err(e) && is_type_error(e, x),
    }
}

/// `r` is the unit-valued outcome `t`: success, or exactly that type error.
pub open spec fn done_as(r: Result<(), CompilerError>, t: Result<(), TypeErr>) -> bool {
    match t {
        Ok(()) => r is Ok,
        Err(x) => r matches Err(e) && is_type_error(e, x),
    }
}

pub open spec fn opt_view(t: Option<&Type>) -> Option<TypeView> {
    match t {
        Some(t) => Some(t@),
        None => None,
    }
}

fn binary_op_text(op: BinaryOp) -> (r: &'static str)
    ensures
        r@ == op_text(op),
{
    match op {
        BinaryOp::Add => "+",
        BinaryOp::Sub => "-",
        BinaryOp::Mul => "*",
        BinaryOp::Div => "/",
        BinaryOp::Mod => "%",
        BinaryOp::Eq => "==",
        BinaryOp::NotEq => "!=",
        BinaryOp::Lt => "<",
        BinaryOp::LtEq => "<=",
        BinaryOp::Gt => ">",
        BinaryOp::GtEq => ">=",
        BinaryOp::And => "&&",
        BinaryOp::Or => "||",
    }
}

/// `head` followed by the name of `t`.
fn with_type(head: &str, t: &Type) -> (r: String)
    ensures
        r@ == head@ + type_text(t@),
{
    let mut m = String::from_str(head);
    append(&mut m, t.name().as_str());
    m
}

/// `head`, the name of `a`, `mid`, the name of `b`.
fn with_types(head: &str, a: &Type, mid: &str, b: &Type) -> (r: String)
    ensures
        r@ == head@ + type_text(a@) + mid@ + type_text(b@),
{
    let mut m = with_type(head, a);
    append(&mut m, mid);
    append(&mut m, b.name().as_str());
    m
}

/// "Undefined variable: " and the name.
fn undefined_message(name: &String) -> (r: String)
    ensures
        r@ == undefined_variable(name@),
{
    let mut m = String::from_str("Undefined variable: ");
    append(&mut m, name.as_str());
    m
}

fn type_error(span: Span, message: String) -> (r: CompilerError)
    ensures
        r is TypeError,
        r.span_view() == Some(span),
        r.message_view() == message@,
{
    CompilerError::TypeError { span, message }
}

/// The result type of a binary operator on operands of types `l` and `r`.
fn binary_type(op: BinaryOp, l: &Type, r: &Type) -> (res: Option<Type>)
    ensures
        match binary_result(op, l@, r@) {
            Some(t) => res matches Some(u) && u@ == t,
            None => res is None,
        },
{
    let l_int = matches!(l, Type::Int);
    let l_float = matches!(l, Type::Float);
    let r_int = matches!(r, Type::Int);
    let r_float = matches!(r, Type::Float);
    match op {
        BinaryOp::Add | BinaryOp::Sub | BinaryOp::Mul | BinaryOp::Div | BinaryOp::Mod => {
            if l_int && r_int {
                Some(Type::Int)
            } else if (l_int || l_float) && (r_int || r_float) {
                Some(Type::Float)
            } else {
                None
            }
        },
        BinaryOp::Eq | BinaryOp::NotEq => if types_equal(l, r) { Some(Type::Bool) } else { None },
        BinaryOp::Lt | BinaryOp::LtEq | BinaryOp::Gt | BinaryOp::GtEq => {
            if (l_int && r_int) || (l_float && r_float) {
                Some(Type::Bool)
            } else {
                None
            }
        },
        BinaryOp::And | BinaryOp::Or => {
            if matches!(l, Type::Bool) && matches!(r, Type::Bool) {
                Some(Type::Bool)
            } else {
                None
            }
        },
    }
}

/// Checks a program: a scoped type environment, function signatures first.
pub struct TypeChecker {
    env: TypeEnvironment,
    source: String,
}

impl TypeChecker {
    pub fn new(source: String) -> (r: TypeChecker)
        ensures
            r.source()@ == source@,
            r.env_model() == seq![Scope::empty()],
    {
        TypeChecker { env: TypeEnvironment::new(), source }
    }

    /// The source text the checked program was read from.
    pub closed spec fn source(&self) -> String {
        self.source
    }

    pub closed spec fn env_model(&self) -> Seq<Scope> {
        self.env.model()
    }

    /// The type an identifier is bound to, or a type error when it is unbound.
    pub fn check_identifier(&self, ident: &Identifier) -> (r: Result<Type, CompilerError>)
        ensures
            typed_as(r, expr_check(self.env_model(), Expr::Identifier(*ident))),
    {
        match self.env.lookup(ident.name.as_str()) {
            Some(t) => Ok(copy_type(t)),
            None => Err(type_error(ident.span, undefined_message(&ident.name))),
        }
    }

    fn check_literal(&self, lit: &Literal) -> (r: Type)
        ensures
            r@ == literal_type(*lit),
    {
        match lit {
            Literal::Int(..) => Type::Int,
            Literal::Float(..) => Type::Float,
            Literal::Bool(..) => Type::Bool,
            Literal::String(..) => Type::String,
        }
    }

    fn check_expr(&self, e: &Expr) -> (r: Result<Type, CompilerError>)
        ensures
            typed_as(r, expr_check(self.env_model(), *e)),
        decreases *e, 0int,
    {
        match e {
            Expr::Literal(l) => Ok(self.check_literal(l)),
            Expr::Identifier(i) => self.check_identifier(i),
            Expr::Binary(b) => {
                let l = self.check_expr(&b.left)?;
                let r = self.check_expr(&b.right)?;
                match binary_type(b.op, &l, &r) {
                    Some(t) => Ok(t),
                    None => {
                        let mut m = String::from_str("Cannot apply operator ");
                        append(&mut m, binary_op_text(b.op));
                        let tail = with_types(" to types ", &l, " and ", &r);
                        append(&mut m, tail.as_str());
                        assert(m@ =~= "Cannot apply operator "@ + op_text(b.op) + " to types "@ + type_text(l@) + " and "@
                            + type_text(r@));
                        Err(type_error(b.span, m))
                    },
                }
            },
            Expr::Unary(u) => {
                let t = self.check_expr(&u.expr)?;
                match u.op {
                    UnaryOp::Neg | UnaryOp::Pos => {
                        if matches!(t, Type::Int) || matches!(t, Type::Float) {
                            Ok(t)
                        } else {
                            Err(type_error(u.span, with_type("Cannot negate value of type ", &t)))
                        }
                    },
                    UnaryOp::Not => {
                        if matches!(t, Type::Bool) {
                            Ok(Type::Bool)
                        } else {
                            Err(type_error(u.span, with_type("Cannot apply logical not to value of type ", &t)))
                        }
                    },
                }
            },
            Expr::Assign(a) => match &*a.target {
                Expr::Identifier(i) => match self.env.lookup(i.name.as_str()) {
                    Some(target) => {
                        let value = self.check_expr(&a.value)?;
                        if types_equal(target, &value) {
                            Ok(value)
                        } else {
                            Err(type_error(a.span, with_types("Cannot assign value of type ", &value, " to variable of type ", target)))
                        }
                    },
                    None => Err(type_error(i.span, undefined_message(&i.name))),
                },
                _ => Err(type_error(a.span, String::from_str("Left side of assignment must be a variable"))),
            },
            Expr::Call(c) => match &*c.callee {
                Expr::Identifier(f) => match self.env.lookup(f.name.as_str()) {
                    Some(Type::Function { params, return_type }) => {
                        proof {
                            lemma_types_view(*params, 0);
                        }
                        if params.len() != c.arguments.len() {
                            let mut m = String::from_str("Function ");
                            append(&mut m, f.name.as_str());
                            append(&mut m, " takes ");
                            append_decimal(&mut m, params.len() as u64);
                            append(&mut m, " arguments but ");
                            append_decimal(&mut m, c.arguments.len() as u64);
                            append(&mut m, " were provided");
                            assert(m@ =~= "Function "@ + f.name@ + " takes "@ + decimal(params.len() as nat) + " arguments but "@
                                + decimal(c.arguments.len() as nat) + " were provided"@);
                            return Err(type_error(c.span, m));
                        }
                        self.check_args(&c.arguments, params)?;
                        Ok(copy_type(return_type))
                    },
                    Some(_) => {
                        let mut m = String::from_str(f.name.as_str());
                        append(&mut m, " is not a function");
                        Err(type_error(f.span, m))
                    },
                    None => {
                        let mut m = String::from_str("Undefined function: ");
                        append(&mut m, f.name.as_str());
                        assert(m@ =~= "Undefined function: "@ + f.name@);
                        Err(type_error(f.span, m))
                    },
                },
                _ => Err(type_error(c.span, String::from_str("Callee must be a function name"))),
            },
        }
    }

    /// Checks each argument against the parameter type at its position.
    fn check_args(&self, args: &Vec<Expr>, params: &Vec<Type>) -> (r: Result<(), CompilerError>)
        requires
            args.len() == params.len(),
        ensures
            done_as(r, args_check(self.env_model(), *args, types_view(*params, 0), 0)),
        decreases *args, args.len(),
    {
        let ghost ps = types_view(*params, 0);
        proof {
            lemma_types_view(*params, 0);
        }
        let mut k: usize = 0;
        while k < args.len()
            invariant
                k <= args.len() == params.len(),
                ps == types_view(*params, 0),
                ps.len() == params.len(),
                forall|m: int| 0 <= m < params.len() ==> #[trigger] ps[m] == params@[m]@,
                args_check(self.env_model(), *args, ps, 0) == args_check(self.env_model(), *args, ps, k as int),
            decreases args.len() - k,
        {
            proof {
                assert(decreases_to!(*args => args[k as int]));
                assert(ps[k as int] == params@[k as int + 0]@);
            }
            let t = self.check_expr(&args[k])?;
            if !types_equal(&t, &params[k]) {
                let mut m = String::from_str("Type mismatch in argument ");
                append_decimal(&mut m, k as u64);
                let tail = with_types(": expected ", &params[k], ", found ", &t);
                append(&mut m, tail.as_str());
                assert(m@ =~= "Type mismatch in argument "@ + decimal(k as nat) + ": expected "@ + type_text(ps[k as int])
                    + ", found "@ + type_text(t@));
                return Err(type_error(args[k].span(), m));
            }
            k = k + 1;
        }
        Ok(())
    }

    /// Checks that every expression is well-typed.
    fn check_all(&self, args: &Vec<Expr>) -> (r: Result<(), CompilerError>)
        ensures
            done_as(r, all_check(self.env_model(), *args, 0)),
        decreases *args, args.len(),
    {
        let mut k: usize = 0;
        while k < args.len()
            invariant
                k <= args.len(),
                all_check(self.env_model(), *args, 0) == all_check(self.env_model(), *args, k as int),
            decreases args.len() - k,
        {
            proof {
                assert(decreases_to!(*args => args[k as int]));
            }
            self.check_expr(&args[k])?;
            k = k + 1;
        }
        Ok(())
    }
}

/// What checking a statement promises: on success its type, with the
/// innermost scope replaced as `stmt_result` says; on failure a type error.
pub open spec fn stmt_checked(
    before: Seq<Scope>,
    after: Seq<Scope>,
    s: Stmt,
    expected: Option<TypeView>,
    r: Result<Type, CompilerError>,
) -> bool {
    match stmt_check(before, s, expected) {
        Ok((t, inner)) => r matches Ok(u) && u@ == t && after == with_inner(before, inner),
        Err(x) => r matches Err(e) && is_type_error(e, x),
    }
}

impl TypeChecker {
    fn check_stmt(&mut self, stmt: &Stmt, expected: Option<&Type>) -> (r: Result<Type, CompilerError>)
        requires
            old(self).env_model().len() > 0,
        ensures
            stmt_checked(old(self).env_model(), final(self).env_model(), *stmt, opt_view(expected), r),
        decreases *stmt, 0int,
    {
        let ghost env = self.env_model();
        match stmt {
            Stmt::Expr(es) => {
                let t = self.check_expr(&es.expr)?;
                assert(with_inner(env, env.last()) =~= env);
                Ok(t)
            },
            Stmt::Declaration(d) => {
                self.check_declaration(d)?;
                Ok(Type::Unit)
            },
            Stmt::If(i) => {
                let c = self.check_expr(&i.condition)?;
                if !matches!(c, Type::Bool) {
                    return Err(type_error(i.condition.span(), with_type("If condition must be a boolean, found ", &c)));
                }
                let then_t = self.check_block(&i.then_branch, expected)?;
                match &i.else_branch {
                    Some(b) => {
                        let else_t = self.check_stmt(b, expected)?;
                        if !types_equal(&then_t, &else_t) {
                            return Err(type_error(i.span, with_types("If and else branches have different types: ", &then_t, " and ", &else_t)));
                        }
                        Ok(then_t)
                    },
                    None => {
                        assert(with_inner(env, env.last()) =~= env);
                        Ok(Type::Unit)
                    },
                }
            },
            Stmt::While(w) => {
                let c = self.check_expr(&w.condition)?;
                if !matches!(c, Type::Bool) {
                    return Err(type_error(w.condition.span(), with_type("While condition must be a boolean, found ", &c)));
                }
                self.check_block(&w.body, None)?;
                assert(with_inner(env, env.last()) =~= env);
                Ok(Type::Unit)
            },
            Stmt::For(f) => {
                self.check_expr(&f.start)?;
                self.check_expr(&f.end)?;
                self.env.enter_scope();
                self.env.define(f.variable.clone(), Type::Int);
                assert(self.env_model() =~= env.push(seq![(f.variable@, TypeView::Int)]));
                self.check_block(&f.body, None)?;
                self.env.exit_scope();
                assert(self.env_model() =~= env);
                assert(with_inner(env, env.last()) =~= env);
                Ok(Type::Unit)
            },
            Stmt::Return(r) => {
                let t = match &r.value {
                    Some(v) => self.check_expr(v)?,
                    None => Type::Unit,
                };
                match expected {
                    Some(x) => {
                        if !types_equal(&t, x) {
                            return Err(type_error(r.span, with_types("Return type mismatch: expected ", x, ", found ", &t)));
                        }
                    },
                    None => {},
                }
                assert(with_inner(env, env.last()) =~= env);
                Ok(t)
            },
            Stmt::Block(b) => {
                let t = self.check_block(b, expected)?;
                assert(with_inner(env, env.last()) =~= env);
                Ok(t)
            },
            Stmt::Println(p) => {
                self.check_all(&p.args)?;
                assert(with_inner(env, env.last()) =~= env);
                Ok(Type::Unit)
            },
        }
    }

    /// Checks a block in a scope of its own; the environment is as before on success.
    fn check_block(&mut self, block: &Block, expected: Option<&Type>) -> (r: Result<Type, CompilerError>)
        requires
            old(self).env_model().len() > 0,
        ensures
            match block_check(old(self).env_model(), *block, opt_view(expected)) {
                Ok(t) => r matches Ok(u) && u@ == t && final(self).env_model() == old(self).env_model(),
                Err(x) => r matches Err(e) && is_type_error(e, x),
            },
        decreases *block, 0int,
    {
        self.env.enter_scope();
        let t = self.check_stmts(&block.statements, expected)?;
        self.env.exit_scope();
        Ok(t)
    }

    /// Checks statements in order in the current innermost scope; the type is
    /// that of the last one, unit when there is none.
    fn check_stmts(&mut self, stmts: &Vec<Stmt>, expected: Option<&Type>) -> (r: Result<Type, CompilerError>)
        requires
            old(self).env_model().len() > 0,
        ensures
            match stmts_check(old(self).env_model(), *stmts, 0, TypeView::Unit, opt_view(expected)) {
                Ok(t) => r matches Ok(u) && u@ == t && final(self).env_model().len() == old(self).env_model().len()
                    && final(self).env_model().drop_last() == old(self).env_model().drop_last(),
                Err(x) => r matches Err(e) && is_type_error(e, x),
            },
        decreases *stmts, stmts.len(),
    {
        let ghost env0 = self.env_model();
        let mut last = Type::Unit;
        let mut k: usize = 0;
        while k < stmts.len()
            invariant
                k <= stmts.len(),
                env0 == old(self).env_model(),
                self.env_model().len() == env0.len(),
                env0.len() > 0,
                self.env_model().drop_last() == env0.drop_last(),
                stmts_check(env0, *stmts, 0, TypeView::Unit, opt_view(expected))
                    == stmts_check(self.env_model(), *stmts, k as int, last@, opt_view(expected)),
            decreases stmts.len() - k,
        {
            proof {
                assert(decreases_to!(*stmts => stmts[k as int]));
            }
            let ghost before = self.env_model();
            last = match self.check_stmt(&stmts[k], expected) {
                Ok(t) => t,
                Err(e) => {
                    assert(stmt_check(before, stmts@[k as int], opt_view(expected)) is Err);
                    return Err(e);
                },
            };
            proof {
                assert(self.env_model().drop_last() =~= before.drop_last());
            }
            k = k + 1;
        }
        Ok(last)
    }

    fn check_declaration(&mut self, decl: &Declaration) -> (r: Result<(), CompilerError>)
        requires
            old(self).env_model().len() > 0,
        ensures
            match decl_check(old(self).env_model(), *decl) {
                Ok(inner) => r is Ok && final(self).env_model() == with_inner(old(self).env_model(), inner),
                Err(x) => r matches Err(e) && is_type_error(e, x),
            },
        decreases *decl, 0int,
    {
        let ghost env = self.env_model();
        match decl {
            Declaration::Function(f) => {
                self.env.enter_scope();
                assert(param_scope(f.params@.subrange(0, 0)) =~= Scope::empty());
                let mut k: usize = 0;
                while k < f.params.len()
                    invariant
                        k <= f.params.len(),
                        self.env_model() == env.push(param_scope(f.params@.subrange(0, k as int))),
                    decreases f.params.len() - k,
                {
                    let ghost before = self.env_model();
                    let typ = from_ast_type(&f.params[k].typ);
                    self.env.define(f.params[k].name.clone(), typ);
                    proof {
                        assert(param_scope(f.params@.subrange(0, k + 1)) =~= param_scope(
                            f.params@.subrange(0, k as int),
                        ).push((f.params@[k as int].name@, type_of_ast(f.params@[k as int].typ))));
                        assert(self.env_model() =~= env.push(param_scope(f.params@.subrange(0, k + 1))));
                    }
                    k = k + 1;
                }
                assert(f.params@.subrange(0, k as int) =~= f.params@);
                let expected = match &f.return_type {
                    Some(t) => from_ast_type(t),
                    None => Type::Unit,
                };
                self.check_block(&f.body, Some(&expected))?;
                self.env.exit_scope();
                assert(self.env_model() =~= env);
                assert(with_inner(env, env.last()) =~= env);
                Ok(())
            },
            Declaration::Variable(v) => {
                let t = self.check_expr(&v.initializer)?;
                match &v.typ {
                    Some(declared) => {
                        let d = from_ast_type(declared);
                        if !types_equal(&d, &t) {
                            return Err(type_error(v.span, with_types("Type mismatch: expected ", &d, ", found ", &t)));
                        }
                    },
                    None => {},
                }
                self.env.define(v.name.clone(), t);
                Ok(())
            },
        }
    }

    /// The type of a function's signature.
    fn signature(f: &FunctionDecl) -> (r: Type)
        ensures
            r@ == signature_view(*f),
    {
        let mut params: Vec<Type> = Vec::new();
        let mut k: usize = 0;
        while k < f.params.len()
            invariant
                k <= f.params.len(),
                params.len() == k,
                forall|m: int| 0 <= m < k ==> #[trigger] params@[m]@ == type_of_ast(f.params@[m].typ),
            decreases f.params.len() - k,
        {
            params.push(from_ast_type(&f.params[k].typ));
            k = k + 1;
        }
        let ret = match &f.return_type {
            Some(t) => from_ast_type(t),
            None => Type::Unit,
        };
        proof {
            lemma_types_view(params, 0);
            assert forall|m: int| 0 <= m < params.len() implies #[trigger] types_view(params, 0)[m]
                == f.params@.map_values(|p: Parameter| type_of_ast(p.typ))[m] by {
                assert(types_view(params, 0)[m] == params@[m + 0]@);
            }
            assert(types_view(params, 0) =~= f.params@.map_values(|p: Parameter| type_of_ast(p.typ)));
            assert(ret@ == return_view(*f));
        }
        Type::Function { params, return_type: Box::new(ret) }
    }

    /// Checks a whole program: every function's signature is registered first,
    /// so calls may refer to functions declared later; then each declaration is
    /// checked in order. Fails with the first type error.
    pub fn check_program(&mut self, program: &Program) -> (r: Result<(), CompilerError>)
        ensures
            done_as(r, program_check(*program)),
            r is Ok <==> program_ok(*program),
    {
        self.env = TypeEnvironment::new();
        let ds = &program.declarations;
        let mut k: usize = 0;
        while k < ds.len()
            invariant
                k <= ds.len(),
                ds@ == program.declarations@,
                self.env_model() == seq![registered(ds@, k as int)],
            decreases ds.len() - k,
        {
            match &ds[k] {
                Declaration::Function(f) => {
                    let sig = Self::signature(f);
                    self.env.define(f.name.clone(), sig);
                    assert(self.env_model() =~= seq![registered(ds@, k + 1)]);
                },
                Declaration::Variable(_) => {},
            }
            k = k + 1;
        }
        let ghost global = registered(ds@, ds.len() as int);
        let mut k: usize = 0;
        while k < ds.len()
            invariant
                k <= ds.len(),
                ds@ == program.declarations@,
                global == registered(program.declarations@, program.declarations.len() as int),
                self.env_model().len() == 1,
                decls_check(global, ds@, 0) == decls_check(self.env_model()[0], ds@, k as int),
            decreases ds.len() - k,
        {
            let ghost before = self.env_model();
            assert(before =~= seq![before[0]]);
            match self.check_declaration(&ds[k]) {
                Ok(()) => {},
                Err(e) => {
                    assert(decl_check(seq![before[0]], ds@[k as int]) is Err);
                    return Err(e);
                },
            }
            k = k + 1;
        }
        Ok(())
    }
}

proof fn lemma_stmts_fail(env: Seq<Scope>, stmts: Vec<Stmt>, i: int, last: TypeView, expected: Option<TypeView>, j: int)
    requires
        0 <= i <= j < stmts.len(),
        forall|e: Seq<Scope>| #[trigger] stmt_check(e, stmts@[j], expected) is Err,
    ensures
        stmts_check(env, stmts, i, last, expected) is Err,
    decreases j - i,
{
    if i < j {
        match stmt_check(env, stmts@[i], expected) {
            Ok((t, inner)) => lemma_stmts_fail(with_inner(env, inner), stmts, i + 1, t, expected, j),
            Err(_) => {},
        }
    }
}

proof fn lemma_decls_fail(global: Scope, ds: Seq<Declaration>, i: int, k: int)
    requires
        0 <= i <= k < ds.len(),
        forall|g: Scope| #[trigger] decl_check(seq![g], ds[k]) is Err,
    ensures
        decls_check(global, ds, i) is Err,
    decreases k - i,
{
    if i < k {
        match decl_check(seq![global], ds[i]) {
            Ok(inner) => lemma_decls_fail(inner, ds, i + 1, k),
            Err(_) => {},
        }
    }
}

/// A program with a function declared `-> i32` whose body returns a string
/// literal at its top level is ill-typed. When that `return` is what fails
/// first, the error names both types.
pub proof fn lemma_string_return_rejected(p: Program, k: int, j: int)
    requires
        0 <= k < p.declarations.len(),
        p.declarations@[k] is Function,
        p.declarations@[k]->Function_0.return_type == Some(ast::Type::I32),
        0 <= j < p.declarations@[k]->Function_0.body.statements.len(),
        p.declarations@[k]->Function_0.body.statements@[j] is Return,
        p.declarations@[k]->Function_0.body.statements@[j]->Return_0.value matches Some(v) && v is Literal
            && v->Literal_0 is String,
    ensures
        !program_ok(p),
        forall|e: Seq<Scope>| #[trigger] stmt_check(e, p.declarations@[k]->Function_0.body.statements@[j], Some(TypeView::Int))
            == Err::<(TypeView, Scope), TypeErr>((
                p.declarations@[k]->Function_0.body.statements@[j]->Return_0.span,
                "Return type mismatch: expected "@ + type_text(TypeView::Int) + ", found "@ + type_text(TypeView::String),
            )),
{
    let f = p.declarations@[k]->Function_0;
    let stmts = f.body.statements;
    assert forall|e: Seq<Scope>| #[trigger] stmt_check(e, stmts@[j], Some(TypeView::Int)) is Err by {}
    assert forall|g: Scope| #[trigger] decl_check(seq![g], p.declarations@[k]) is Err by {
        let env = seq![g].push(param_scope(f.params@));
        lemma_stmts_fail(env.push(Scope::empty()), stmts, 0, TypeView::Unit, Some(TypeView::Int), j);
    }
    lemma_decls_fail(registered(p.declarations@, p.declarations.len() as int), p.declarations@, 0, k);
}

/// Calling a function with a number of arguments other than its number of
/// parameters is a type error at the call that cites both counts.
pub proof fn lemma_call_arity_rejected(env: Seq<Scope>, c: FunctionCall, ps: Seq<TypeView>, ret: TypeView)
    requires
        *c.callee is Identifier,
        env_find(env, c.callee->Identifier_0.name@) == Some(TypeView::Function(ps, Box::new(ret))),
        c.arguments.len() != ps.len(),
    ensures
        expr_check(env, Expr::Call(c)) == Err::<TypeView, TypeErr>((
            c.span,
            "Function "@ + c.callee->Identifier_0.name@ + " takes "@ + decimal(ps.len()) + " arguments but "@
                + decimal(c.arguments.len() as nat) + " were provided"@,
        )),
{
}

proof fn lemma_args_fail(env: Seq<Scope>, args: Vec<Expr>, ps: Seq<TypeView>, j: int, i: int, t: TypeView)
    requires
        0 <= j <= i < args.len(),
        expr_check(env, args@[i]) == Ok::<TypeView, TypeErr>(t),
        t != ps[i],
    ensures
        args_check(env, args, ps, j) is Err,
        (forall|m: int| j <= m < i ==> #[trigger] expr_check(env, args@[m]) == Ok::<TypeView, TypeErr>(ps[m]))
            ==> args_check(env, args, ps, j) == Err::<(), TypeErr>((
            args@[i].span_of(),
            "Type mismatch in argument "@ + decimal(i as nat) + ": expected "@ + type_text(ps[i]) + ", found "@
                + type_text(t),
        )),
    decreases i - j,
{
    if j < i {
        lemma_args_fail(env, args, ps, j + 1, i, t);
        if forall|m: int| j <= m < i ==> #[trigger] expr_check(env, args@[m]) == Ok::<TypeView, TypeErr>(ps[m]) {
            assert(expr_check(env, args@[j]) == Ok::<TypeView, TypeErr>(ps[j]));
            assert(forall|m: int| j + 1 <= m < i ==> #[trigger] expr_check(env, args@[m]) == Ok::<TypeView, TypeErr>(ps[m]));
        }
    }
}

/// Calling a function with an argument whose type differs from the parameter
/// at its position is a type error; when the arguments before it match, the
/// error is at that argument and cites its index and both types.
pub proof fn lemma_call_argument_rejected(
    env: Seq<Scope>,
    c: FunctionCall,
    ps: Seq<TypeView>,
    ret: TypeView,
    i: int,
    t: TypeView,
)
    requires
        *c.callee is Identifier,
        env_find(env, c.callee->Identifier_0.name@) == Some(TypeView::Function(ps, Box::new(ret))),
        c.arguments.len() == ps.len(),
        0 <= i < c.arguments.len(),
        expr_check(env, c.arguments@[i]) == Ok::<TypeView, TypeErr>(t),
        t != ps[i],
    ensures
        expr_check(env, Expr::Call(c)) is Err,
        (forall|m: int| 0 <= m < i ==> #[trigger] expr_check(env, c.arguments@[m]) == Ok::<TypeView, TypeErr>(ps[m]))
            ==> expr_check(env, Expr::Call(c)) == Err::<TypeView, TypeErr>((
            c.arguments@[i].span_of(),
            "Type mismatch in argument "@ + decimal(i as nat) + ": expected "@ + type_text(ps[i]) + ", found "@
                + type_text(t),
        )),
{
    lemma_args_fail(env, c.arguments, ps, 0, i, t);
}

} // verus!

use vstd::prelude::*;
use crate::ast::{
    AssignExpr, BinaryExpr, BinaryOp, Block, Declaration, Expr, ForStmt, FunctionCall, FunctionDecl,
    IfStmt, Literal, Parameter, PrintStmt, Program, Stmt, UnaryOp, WhileStmt,
};
use crate::error::CompilerError;
use crate::text::{append, append_decimal, append_signed, decimal, push_char, signed_decimal};

verus! {

broadcast use vstd::std_specs::vec::group_vec_axioms;

/// Where each visible variable lives: its name and its offset below the frame pointer.
pub type Slots = Seq<(Seq<char>, nat)>;

/// The offset of the latest visible variable called `name`.
pub open spec fn slot_of(vars: Slots, name: Seq<char>) -> Option<nat>
    decreases vars.len(),
{
    if vars.len() == 0 {
        None
    } else if vars.last().0 == name {
        Some(vars.last().1)
    } else {
        slot_of(vars.drop_last(), name)
    }
}

pub open spec fn slots_model(vars: Seq<(String, usize)>) -> Slots {
    vars.map_values(|v: (String, usize)| (v.0@, v.1 as nat))
}

/// The argument registers, in order.
pub open spec fn arg_register(k: nat) -> Seq<char> {
    if k == 0 { "rdi"@ }
    else if k == 1 { "rsi"@ }
    else if k == 2 { "rdx"@ }
    else if k == 3 { "rcx"@ }
    else if k == 4 { "r8"@ }
    else { "r9"@ }
}

pub const MAX_REGISTER_ARGS: usize = 6;

pub open spec fn load_asm(off: nat) -> Seq<char> {
    "    mov rax, QWORD [rbp-"@ + decimal(off) + "]\n"@
}

pub open spec fn store_asm(off: nat) -> Seq<char> {
    "    mov QWORD [rbp-"@ + decimal(off) + "], rax\n"@
}

/// The instructions that combine `rax` (left) and `rcx` (right) into `rax`.
pub open spec fn binop_asm(op: BinaryOp) -> Option<Seq<char>> {
    match op {
        BinaryOp::Add => Some("    add rax, rcx\n"@),
        BinaryOp::Sub => Some("    sub rax, rcx\n"@),
        BinaryOp::Mul => Some("    imul rax, rcx\n"@),
        BinaryOp::Div => Some("    cqo\n    idiv rcx\n"@),
        BinaryOp::Mod => Some("    cqo\n    idiv rcx\n    mov rax, rdx\n"@),
        BinaryOp::Eq => Some("    cmp rax, rcx\n    sete al\n    movzx rax, al\n"@),
        BinaryOp::NotEq => Some("    cmp rax, rcx\n    setne al\n    movzx rax, al\n"@),
        BinaryOp::Lt => Some("    cmp rax, rcx\n    setl al\n    movzx rax, al\n"@),
        BinaryOp::LtEq => Some("    cmp rax, rcx\n    setle al\n    movzx rax, al\n"@),
        BinaryOp::Gt => Some("    cmp rax, rcx\n    setg al\n    movzx rax, al\n"@),
        BinaryOp::GtEq => Some("    cmp rax, rcx\n    setge al\n    movzx rax, al\n"@),
        BinaryOp::And | BinaryOp::Or => None,
    }
}

pub open spec fn unop_asm(op: UnaryOp) -> Seq<char> {
    match op {
        UnaryOp::Neg => "    neg rax\n"@,
        UnaryOp::Pos => ""@,
        UnaryOp::Not => "    xor rax, 1\n"@,
    }
}

/// Pops the top `n` stack words into the first `n` argument registers, last one first.
pub open spec fn pop_args_asm(n: nat) -> Seq<char>
    decreases n,
{
    if n == 0 {
        Seq::empty()
    } else {
        "    pop "@ + arg_register((n - 1) as nat) + "\n"@ + pop_args_asm((n - 1) as nat)
    }
}

/// A call, keeping the stack 16-byte aligned: `odd` says whether an odd number
/// of words is pushed at this point.
pub open spec fn call_asm(name: Seq<char>, odd: bool) -> Seq<char> {
    if odd {
        "    sub rsp, 8\n    call "@ + name + "\n    add rsp, 8\n"@
    } else {
        "    call "@ + name + "\n"@
    }
}

/// The code that leaves the value of `e` in `rax`, or `None` for what this
/// generator does not lower (strings and floats in expressions, `&&`, `||`,
/// unknown variables, calls with more than six arguments).
pub open spec fn expr_asm(vars: Slots, e: Expr, odd: bool) -> Option<Seq<char>>
    decreases e, 0int,
{
    match e {
        Expr::Literal(Literal::Int(v, _)) => Some("    mov rax, "@ + signed_decimal(v as int) + "\n"@),
        Expr::Literal(Literal::Bool(b, _)) => Some(if b { "    mov rax, 1\n"@ } else { "    mov rax, 0\n"@ }),
        Expr::Literal(_) => None,
        Expr::Identifier(i) => match slot_of(vars, i.name@) {
            Some(off) => Some(load_asm(off)),
            None => None,
        },
        Expr::Binary(b) => binary_asm(vars, b, odd),
        Expr::Unary(u) => match expr_asm(vars, *u.expr, odd) {
            Some(c) => Some(c + unop_asm(u.op)),
            None => None,
        },
        Expr::Assign(a) => assign_asm(vars, a, odd),
        Expr::Call(c) => call_expr_asm(vars, c, odd),
    }
}

/// Left operand, saved on the stack while the right one is computed, then combined.
pub open spec fn binary_asm(vars: Slots, b: BinaryExpr, odd: bool) -> Option<Seq<char>>
    decreases b, 0int,
{
    match (expr_asm(vars, *b.left, odd), expr_asm(vars, *b.right, !odd), binop_asm(b.op)) {
        (Some(l), Some(r), Some(op)) => Some(l + "    push rax\n"@ + r + "    mov rcx, rax\n    pop rax\n"@ + op),
        _ => None,
    }
}

/// The value, then a store into the target's slot.
pub open spec fn assign_asm(vars: Slots, a: AssignExpr, odd: bool) -> Option<Seq<char>>
    decreases a, 0int,
{
    match *a.target {
        Expr::Identifier(i) => match (slot_of(vars, i.name@), expr_asm(vars, *a.value, odd)) {
            (Some(off), Some(c)) => Some(c + store_asm(off)),
            _ => None,
        },
        _ => None,
    }
}

/// The arguments pushed in order, popped into the argument registers, then the call.
pub open spec fn call_expr_asm(vars: Slots, c: FunctionCall, odd: bool) -> Option<Seq<char>>
    decreases c, 0int,
{
    match *c.callee {
        Expr::Identifier(f) => if c.arguments.len() <= 6 {
            match args_asm(vars, c.arguments, 0, odd) {
                Some(a) => Some(a + pop_args_asm(c.arguments.len() as nat) + call_asm(f.name@, odd)),
                None => None,
            }
        } else if c.arguments.len() <= LIMIT {
            wide_call_asm(vars, c.arguments, f.name@, odd)
        } else {
            None
        },
        _ => None,
    }
}

/// A call with more than six arguments: room for the arguments after the
/// sixth, the arguments, the six register pops, the call, and the room released.
pub open spec fn wide_call_asm(vars: Slots, args: Vec<Expr>, name: Seq<char>, odd: bool) -> Option<Seq<char>>
    decreases args, args.len() + 1,
{
    let reserve = stack_args_size(args.len() as nat, odd);
    match args_asm(vars, args, 0, false) {
        Some(a) => Some("    sub rsp, "@ + decimal(reserve) + "\n"@ + a + pop_args_asm(6) + "    call "@ + name
            + "\n    add rsp, "@ + decimal(reserve) + "\n"@),
        None => None,
    }
}

/// The bytes reserved below the pushed register arguments for the arguments
/// after the sixth, padded so that the stack is 16-byte aligned at the call.
pub open spec fn stack_args_size(n: nat, odd: bool) -> nat {
    let extra = (n - 6) as nat;
    let pad: nat = if odd != (extra % 2 == 1) { 1 } else { 0 };
    8 * (extra + pad)
}

/// Stores `rax` into the stack slot of argument `i` (from the seventh on),
/// which lies above the six pushed register arguments.
pub open spec fn arg_store_asm(i: nat) -> Seq<char> {
    "    mov QWORD [rsp+"@ + decimal((48 + 8 * (i - 6)) as nat) + "], rax\n"@
}

/// Evaluates `args[i..]` left to right: each of the first six is pushed (and
/// later popped into its register), each later one is stored into its stack slot.
pub open spec fn args_asm(vars: Slots, args: Vec<Expr>, i: int, odd: bool) -> Option<Seq<char>>
    decreases args, args.len() - i,
{
    if 0 <= i < args.len() {
        if i < 6 {
            match (expr_asm(vars, args@[i], odd), args_asm(vars, args, i + 1, !odd)) {
                (Some(c), Some(rest)) => Some(c + "    push rax\n"@ + rest),
                _ => None,
            }
        } else {
            match (expr_asm(vars, args@[i], odd), args_asm(vars, args, i + 1, odd)) {
                (Some(c), Some(rest)) => Some(c + arg_store_asm(i as nat) + rest),
                _ => None,
            }
        }
    } else {
        Some(Seq::empty())
    }
}

/// `code` grew by exactly the text `t` describes, or the result is a codegen error.
pub open spec fn result_emitted(before: Seq<char>, after: Seq<char>, t: Option<Seq<char>>, r: Result<(), CompilerError>) -> bool {
    match t {
        Some(t) => r is Ok && after == before + t,
        None => r matches Err(e) && e is CodegenError,
    }
}

fn codegen_error(message: &str) -> (r: CompilerError)
    ensures
        r is CodegenError,
        r.message_view() == message@,
{
    CompilerError::CodegenError { message: String::from_str(message) }
}

fn arg_register_text(k: usize) -> (r: &'static str)
    ensures
        r@ == arg_register(k as nat),
{
    if k == 0 { "rdi" }
    else if k == 1 { "rsi" }
    else if k == 2 { "rdx" }
    else if k == 3 { "rcx" }
    else if k == 4 { "r8" }
    else { "r9" }
}

fn binop_text(op: BinaryOp) -> (r: Option<&'static str>)
    ensures
        match binop_asm(op) {
            Some(t) => r matches Some(s) && s@ == t,
            None => r is None,
        },
{
    match op {
        BinaryOp::Add => Some("    add rax, rcx\n"),
        BinaryOp::Sub => Some("    sub rax, rcx\n"),
        BinaryOp::Mul => Some("    imul rax, rcx\n"),
        BinaryOp::Div => Some("    cqo\n    idiv rcx\n"),
        BinaryOp::Mod => Some("    cqo\n    idiv rcx\n    mov rax, rdx\n"),
        BinaryOp::Eq => Some("    cmp rax, rcx\n    sete al\n    movzx rax, al\n"),
        BinaryOp::NotEq => Some("    cmp rax, rcx\n    setne al\n    movzx rax, al\n"),
        BinaryOp::Lt => Some("    cmp rax, rcx\n    setl al\n    movzx rax, al\n"),
        BinaryOp::LtEq => Some("    cmp rax, rcx\n    setle al\n    movzx rax, al\n"),
        BinaryOp::Gt => Some("    cmp rax, rcx\n    setg al\n    movzx rax, al\n"),
        BinaryOp::GtEq => Some("    cmp rax, rcx\n    setge al\n    movzx rax, al\n"),
        BinaryOp::And | BinaryOp::Or => None,
    }
}

fn unop_text(op: UnaryOp) -> (r: &'static str)
    ensures
        r@ == unop_asm(op),
{
    match op {
        UnaryOp::Neg => "    neg rax\n",
        UnaryOp::Pos => "",
        UnaryOp::Not => "    xor rax, 1\n",
    }
}

/// The offset of the latest visible variable called `name`.
fn find_slot(vars: &Vec<(String, usize)>, name: &String) -> (r: Option<usize>)
    ensures
        match slot_of(slots_model(vars@), name@) {
            Some(o) => r == Some(o as usize) && o <= usize::MAX,
            None => r is None,
        },
{
    let ghost m = slots_model(vars@);
    let mut j = vars.len();
    assert(m.subrange(0, j as int) =~= m);
    while j > 0
        invariant
            j <= vars.len(),
            m == slots_model(vars@),
            slot_of(m, name@) == slot_of(m.subrange(0, j as int), name@),
        decreases j,
    {
        let ghost sub = m.subrange(0, j as int);
        assert(sub.drop_last() =~= m.subrange(0, j - 1));
        assert(sub.last() == (vars@[j - 1].0@, vars@[j - 1].1 as nat));
        if crate::types::str_eq(vars[j - 1].0.as_str(), name.as_str()) {
            return Some(vars[j - 1].1);
        }
        j = j - 1;
    }
    None
}

fn emit_load(code: &mut String, off: usize)
    ensures
        final(code)@ == old(code)@ + load_asm(off as nat),
{
    append(code, "    mov rax, QWORD [rbp-");
    append_decimal(code, off as u64);
    append(code, "]\n");
    assert(final(code)@ =~= old(code)@ + load_asm(off as nat));
}

fn emit_store(code: &mut String, off: usize)
    ensures
        final(code)@ == old(code)@ + store_asm(off as nat),
{
    append(code, "    mov QWORD [rbp-");
    append_decimal(code, off as u64);
    append(code, "], rax\n");
    assert(final(code)@ =~= old(code)@ + store_asm(off as nat));
}

fn emit_pop_args(code: &mut String, n: usize)
    requires
        n <= 6,
    ensures
        final(code)@ == old(code)@ + pop_args_asm(n as nat),
    decreases n,
{
    if n > 0 {
        append(code, "    pop ");
        append(code, arg_register_text(n - 1));
        append(code, "\n");
        emit_pop_args(code, n - 1);
        assert(final(code)@ =~= old(code)@ + pop_args_asm(n as nat));
    } else {
        assert(final(code)@ =~= old(code)@ + pop_args_asm(n as nat));
    }
}

fn emit_call(code: &mut String, name: &String, odd: bool)
    ensures
        final(code)@ == old(code)@ + call_asm(name@, odd),
{
    if odd {
        append(code, "    sub rsp, 8\n    call ");
        append(code, name.as_str());
        append(code, "\n    add rsp, 8\n");
    } else {
        append(code, "    call ");
        append(code, name.as_str());
        append(code, "\n");
    }
    assert(final(code)@ =~= old(code)@ + call_asm(name@, odd));
}

/// Appends the code that leaves the value of `e` in `rax`.
pub fn emit_expr(vars: &Vec<(String, usize)>, e: &Expr, odd: bool, code: &mut String) -> (r: Result<(), CompilerError>)
    ensures
        result_emitted(old(code)@, final(code)@, expr_asm(slots_model(vars@), *e, odd), r),
    decreases *e, 0int,
{
    let ghost vm = slots_model(vars@);
    match e {
        Expr::Literal(Literal::Int(v, _)) => {
            append(code, "    mov rax, ");
            append_signed(code, *v as i64);
            append(code, "\n");
            assert(final(code)@ =~= old(code)@ + expr_asm(vm, *e, odd)->0);
            Ok(())
        },
        Expr::Literal(Literal::Bool(b, _)) => {
            if *b {
                append(code, "    mov rax, 1\n");
            } else {
                append(code, "    mov rax, 0\n");
            }
            Ok(())
        },
        Expr::Literal(Literal::Float(..)) => Err(codegen_error("float values are not supported")),
        Expr::Literal(Literal::String(..)) => Err(codegen_error("string literals are not supported in expressions")),
        Expr::Identifier(i) => match find_slot(vars, &i.name) {
            Some(off) => {
                emit_load(code, off);
                Ok(())
            },
            None => Err(codegen_error("unknown variable")),
        },
        Expr::Binary(b) => emit_binary(vars, b, odd, code),
        Expr::Unary(u) => {
            emit_expr(vars, &u.expr, odd, code)?;
            append(code, unop_text(u.op));
            assert(final(code)@ =~= old(code)@ + expr_asm(vm, *e, odd)->0);
            Ok(())
        },
        Expr::Assign(a) => emit_assign(vars, a, odd, code),
        Expr::Call(c) => emit_call_expr(vars, c, odd, code),
    }
}

fn emit_binary(vars: &Vec<(String, usize)>, b: &BinaryExpr, odd: bool, code: &mut String) -> (r: Result<(), CompilerError>)
    ensures
        result_emitted(old(code)@, final(code)@, binary_asm(slots_model(vars@), *b, odd), r),
    decreases *b, 0int,
{
    let ghost vm = slots_model(vars@);
    let op = match binop_text(b.op) {
        Some(op) => op,
        None => return Err(codegen_error("logical operators are not supported")),
    };
    emit_expr(vars, &b.left, odd, code)?;
    append(code, "    push rax\n");
    emit_expr(vars, &b.right, !odd, code)?;
    append(code, "    mov rcx, rax\n    pop rax\n");
    append(code, op);
    assert(final(code)@ =~= old(code)@ + binary_asm(vm, *b, odd)->0);
    Ok(())
}

fn emit_assign(vars: &Vec<(String, usize)>, a: &AssignExpr, odd: bool, code: &mut String) -> (r: Result<(), CompilerError>)
    ensures
        result_emitted(old(code)@, final(code)@, assign_asm(slots_model(vars@), *a, odd), r),
    decreases *a, 0int,
{
    let ghost vm = slots_model(vars@);
    match &*a.target {
        Expr::Identifier(i) => match find_slot(vars, &i.name) {
            Some(off) => {
                emit_expr(vars, &a.value, odd, code)?;
                emit_store(code, off);
                assert(final(code)@ =~= old(code)@ + assign_asm(vm, *a, odd)->0);
                Ok(())
            },
            None => Err(codegen_error("unknown variable")),
        },
        _ => Err(codegen_error("invalid assignment target")),
    }
}

fn emit_call_expr(vars: &Vec<(String, usize)>, c: &FunctionCall, odd: bool, code: &mut String) -> (r: Result<(), CompilerError>)
    ensures
        result_emitted(old(code)@, final(code)@, call_expr_asm(slots_model(vars@), *c, odd), r),
    decreases *c, 0int,
{
    let ghost vm = slots_model(vars@);
    match &*c.callee {
        Expr::Identifier(f) => {
            let n = c.arguments.len();
            if n <= MAX_REGISTER_ARGS {
                emit_args(vars, &c.arguments, odd, code)?;
                emit_pop_args(code, n);
                emit_call(code, &f.name, odd);
                assert(final(code)@ =~= old(code)@ + call_expr_asm(vm, *c, odd)->0);
                return Ok(());
            }
            if n > LIMIT {
                return Err(codegen_error("too many arguments"));
            }
            emit_wide_call(vars, &c.arguments, &f.name, odd, code)
        },
        _ => Err(codegen_error("only a function name can be called")),
    }
}

fn stack_args_bytes(n: usize, odd: bool) -> (r: usize)
    requires
        6 < n <= LIMIT,
    ensures
        r == stack_args_size(n as nat, odd),
{
    let extra = n - MAX_REGISTER_ARGS;
    let pad: usize = if odd != (extra % 2 == 1) { 1 } else { 0 };
    8 * (extra + pad)
}

#[verifier::rlimit(100)]
fn emit_wide_call(vars: &Vec<(String, usize)>, args: &Vec<Expr>, name: &String, odd: bool, code: &mut String) -> (r: Result<(), CompilerError>)
    requires
        6 < args.len() <= LIMIT,
    ensures
        result_emitted(old(code)@, final(code)@, wide_call_asm(slots_model(vars@), *args, name@, odd), r),
    decreases *args, args.len() + 1,
{
    let ghost vm = slots_model(vars@);
    let reserve = stack_args_bytes(args.len(), odd);
    let mut body = String::new();
    emit_args(vars, args, false, &mut body)?;
    let ghost a = body@;
    assert(a =~= args_asm(vm, *args, 0, false)->0);
    let ghost c0 = code@;
    append(code, "    sub rsp, ");
    append_decimal(code, reserve as u64);
    append(code, "\n");
    let ghost c1 = code@;
    assert(c1 =~= c0 + ("    sub rsp, "@ + decimal(reserve as nat) + "\n"@));
    append(code, body.as_str());
    emit_pop_args(code, MAX_REGISTER_ARGS);
    let ghost c2 = code@;
    assert(c2 =~= c1 + (a + pop_args_asm(6)));
    append(code, "    call ");
    append(code, name.as_str());
    append(code, "\n    add rsp, ");
    append_decimal(code, reserve as u64);
    append(code, "\n");
    assert(code@ =~= c2 + ("    call "@ + name@ + "\n    add rsp, "@ + decimal(reserve as nat) + "\n"@));
    assert(final(code)@ =~= old(code)@ + wide_call_asm(vm, *args, name@, odd)->0);
    Ok(())
}

/// Appends the code that evaluates each argument in order and pushes it.
fn emit_args(vars: &Vec<(String, usize)>, args: &Vec<Expr>, odd: bool, code: &mut String) -> (r: Result<(), CompilerError>)
    requires
        args.len() <= LIMIT,
    ensures
        result_emitted(old(code)@, final(code)@, args_asm(slots_model(vars@), *args, 0, odd), r),
    decreases *args, args.len(),
{
    let ghost vm = slots_model(vars@);
    let mut k: usize = 0;
    let mut parity = odd;
    while k < args.len()
        invariant
            k <= args.len() <= LIMIT,
            args_asm(vm, *args, 0, odd) == (match args_asm(vm, *args, k as int, parity) {
                Some(rest) => Some(final_prefix(old(code)@, code@) + rest),
                None => None,
            }),
            vm == slots_model(vars@),
            code@.len() >= old(code)@.len(),
            code@.subrange(0, old(code)@.len() as int) == old(code)@,
        decreases args.len() - k,
    {
        proof {
            assert(decreases_to!(*args => args[k as int]));
        }
        let ghost before = code@;
        match emit_expr(vars, &args[k], parity, code) {
            Ok(()) => {},
            Err(err) => {
                return Err(err);
            },
        }
        let ghost tail = if k < 6 { "    push rax\n"@ } else { arg_store_asm(k as nat) };
        let ghost next = if k < 6 { !parity } else { parity };
        if k < 6 {
            append(code, "    push rax\n");
        } else {
            append(code, "    mov QWORD [rsp+");
            append_decimal(code, (48 + 8 * (k - 6)) as u64);
            append(code, "], rax\n");
        }
        proof {
            let piece = expr_asm(vm, args@[k as int], parity)->0;
            assert(code@ =~= before + (piece + tail));
            assert(code@.subrange(0, old(code)@.len() as int) =~= old(code)@);
            assert(final_prefix(old(code)@, code@) =~= final_prefix(old(code)@, before) + (piece + tail));
            match args_asm(vm, *args, k + 1, next) {
                Some(rest) => {
                    assert(final_prefix(old(code)@, before) + (piece + tail + rest)
                        =~= final_prefix(old(code)@, code@) + rest);
                },
                None => {},
            }
        }
        if k < 6 {
            parity = !parity;
        }
        k = k + 1;
    }
    proof {
        assert(code@ =~= old(code)@ + final_prefix(old(code)@, code@));
        assert(final_prefix(old(code)@, code@) + Seq::<char>::empty() =~= final_prefix(old(code)@, code@));
    }
    Ok(())
}


/// The bound on labels, stack slots and format strings per program.
pub const LIMIT: usize = 1000000;

/// The generator's running state: the next label number (never reused), the
/// next stack slot of the current function, the number of format strings of the
/// current function, and the data section so far.
pub struct Gen {
    pub labels: nat,
    pub slot: nat,
    pub prints: nat,
    pub data: Seq<char>,
}

pub open spec fn label_line(kind: Seq<char>, n: nat) -> Seq<char> {
    kind + decimal(n) + ":\n"@
}

pub open spec fn jump(instr: Seq<char>, kind: Seq<char>, n: nat) -> Seq<char> {
    instr + kind + decimal(n) + "\n"@
}

pub open spec fn epilogue() -> Seq<char> {
    "    mov rsp, rbp\n    pop rbp\n    ret\n"@
}

/// The data label of the `k`-th format string of function `f`.
pub open spec fn fmt_label(f: Seq<char>, k: nat) -> Seq<char> {
    "fmt_"@ + f + "_"@ + decimal(k)
}

/// A `println!` template in `printf` form: each `{}` becomes `%d`, each `%` becomes `%%`.
pub open spec fn printf_template(t: Seq<char>) -> Seq<char>
    decreases t.len(),
{
    if t.len() == 0 {
        Seq::empty()
    } else if t.len() >= 2 && t[0] == '{' && t[1] == '}' {
        seq!['%', 'd'] + printf_template(t.subrange(2, t.len() as int))
    } else if t[0] == '%' {
        seq!['%', '%'] + printf_template(t.subrange(1, t.len() as int))
    } else {
        seq![t[0]] + printf_template(t.subrange(1, t.len() as int))
    }
}

/// The data-section line of a format string.
pub open spec fn fmt_data(label: Seq<char>, template: Seq<char>) -> Seq<char> {
    "    "@ + label + " db \""@ + printf_template(template) + "\", 10, 0\n"@
}

/// Evaluates `args[k]`, `args[k-1]`, ..., `args[1]`, pushing each value.
pub open spec fn rev_args_asm(vars: Slots, args: Vec<Expr>, k: int, odd: bool) -> Option<Seq<char>>
    decreases k,
{
    if 1 <= k < args.len() {
        match (expr_asm(vars, args@[k], odd), rev_args_asm(vars, args, k - 1, !odd)) {
            (Some(c), Some(rest)) => Some(c + "    push rax\n"@ + rest),
            _ => None,
        }
    } else {
        Some(Seq::empty())
    }
}

/// Pops `m - j` words into the argument registers after `rdi`, from the `j+1`-th on.
pub open spec fn pop_fwd_asm(j: nat, m: nat) -> Seq<char>
    decreases m - j,
{
    if j < m && j < 5 {
        "    pop "@ + arg_register(j + 1) + "\n"@ + pop_fwd_asm(j + 1, m)
    } else {
        Seq::empty()
    }
}

pub open spec fn printf_call() -> Seq<char> {
    "    xor eax, eax\n    call printf\n"@
}

/// An output statement: the arguments after the template, evaluated last to
/// first and pushed, popped into `rsi`, `rdx`, ... in order, the template's
/// address loaded last into `rdi`; the template itself goes to the data section.
pub open spec fn print_asm(f: Seq<char>, vars: Slots, g: Gen, p: PrintStmt) -> Option<(Seq<char>, Gen)> {
    if p.args.len() == 0 {
        Some(("    lea rdi, [rel newline]\n"@ + printf_call(), g))
    } else {
        match p.args@[0] {
            Expr::Literal(Literal::String(t, _)) => {
                if p.args.len() <= 6 && g.prints < LIMIT {
                    match rev_args_asm(vars, p.args, p.args.len() - 1, false) {
                        Some(a) => {
                            let label = fmt_label(f, g.prints);
                            Some((
                                a + pop_fwd_asm(0, (p.args.len() - 1) as nat) + "    lea rdi, [rel "@ + label + "]\n"@ + printf_call(),
                                Gen { prints: g.prints + 1, data: g.data + fmt_data(label, t@), ..g },
                            ))
                        },
                        None => None,
                    }
                } else {
                    None
                }
            },
            _ => None,
        }
    }
}

/// The code of a statement in function `f` (`main` when `is_main`), the state
/// after it and the variables visible after it, or `None` when it cannot be lowered.
pub open spec fn stmt_asm(f: Seq<char>, is_main: bool, vars: Slots, g: Gen, s: Stmt) -> Option<(Seq<char>, Gen, Slots)>
    decreases s, 0int,
{
    match s {
        Stmt::Expr(es) => match expr_asm(vars, es.expr, false) {
            Some(c) => Some((c, g, vars)),
            None => None,
        },
        Stmt::Declaration(Declaration::Variable(v)) => {
            if g.slot < LIMIT {
                match expr_asm(vars, v.initializer, false) {
                    Some(c) => {
                        let off = 8 * (g.slot + 1);
                        Some((c + store_asm(off), Gen { slot: g.slot + 1, ..g }, vars.push((v.name@, off))))
                    },
                    None => None,
                }
            } else {
                None
            }
        },
        Stmt::Declaration(_) => None,
        Stmt::If(i) => if_asm(f, is_main, vars, g, i),
        Stmt::While(w) => while_asm(f, is_main, vars, g, w),
        Stmt::For(fr) => for_asm(f, is_main, vars, g, fr),
        Stmt::Return(r) => match r.value {
            Some(v) => match expr_asm(vars, v, false) {
                Some(c) => Some((c + epilogue(), g, vars)),
                None => None,
            },
            None => Some(((if is_main { "    mov rax, 0\n"@ } else { ""@ }) + epilogue(), g, vars)),
        },
        Stmt::Block(b) => match block_asm(f, is_main, vars, g, b) {
            Some((c, g2)) => Some((c, g2, vars)),
            None => None,
        },
        Stmt::Println(p) => match print_asm(f, vars, g, p) {
            Some((c, g2)) => Some((c, g2, vars)),
            None => None,
        },
    }
}


/// The text of an `if` from the code of its condition, its then-branch and
/// its else-branch, if any, with label number `n`.
pub open spec fn if_text(cc: Seq<char>, tc: Seq<char>, ec: Option<Seq<char>>, n: nat) -> Seq<char> {
    match ec {
        None => cc + jump("    cmp rax, 0\n    je "@, "if_end_"@, n) + tc + label_line("if_end_"@, n),
        Some(ec) => cc + jump("    cmp rax, 0\n    je "@, "if_else_"@, n) + tc + jump("    jmp "@, "if_end_"@, n)
            + label_line("if_else_"@, n) + ec + label_line("if_end_"@, n),
    }
}

/// `if`: the condition, a jump past the then-branch when it is zero, and with
/// an else-branch a jump over it at the end of the then-branch.
pub open spec fn if_asm(f: Seq<char>, is_main: bool, vars: Slots, g: Gen, i: IfStmt) -> Option<(Seq<char>, Gen, Slots)>
    decreases i, 0int,
{
    if g.labels < LIMIT {
        let n = g.labels;
        match (expr_asm(vars, i.condition, false), block_asm(f, is_main, vars, Gen { labels: n + 1, ..g }, i.then_branch)) {
            (Some(cc), Some((tc, g2))) => match i.else_branch {
                None => Some((if_text(cc, tc, None, n), g2, vars)),
                Some(b) => match stmt_asm(f, is_main, vars, g2, *b) {
                    Some((ec, g3, _)) => Some((if_text(cc, tc, Some(ec), n), g3, vars)),
                    None => None,
                },
            },
            _ => None,
        }
    } else {
        None
    }
}

/// `while`: the condition at the loop head, an exit when it is zero, the body,
/// and a jump back.
pub open spec fn while_asm(f: Seq<char>, is_main: bool, vars: Slots, g: Gen, w: WhileStmt) -> Option<(Seq<char>, Gen, Slots)>
    decreases w, 0int,
{
    if g.labels < LIMIT {
        let n = g.labels;
        match (expr_asm(vars, w.condition, false), block_asm(f, is_main, vars, Gen { labels: n + 1, ..g }, w.body)) {
            (Some(cc), Some((bc, g2))) => Some((
                label_line("while_cond_"@, n) + cc + jump("    cmp rax, 0\n    je "@, "while_end_"@, n) + bc
                    + jump("    jmp "@, "while_cond_"@, n) + label_line("while_end_"@, n),
                g2,
                vars,
            )),
            _ => None,
        }
    } else {
        None
    }
}

/// The head of a counting loop: the start stored into the loop variable's slot,
/// then, at the loop head, the end re-evaluated and compared.
pub open spec fn for_head(sc: Seq<char>, ec: Seq<char>, off: nat, n: nat) -> Seq<char> {
    sc + store_asm(off) + label_line("for_cond_"@, n) + ec + "    mov rcx, rax\n"@ + load_asm(off)
        + jump("    cmp rax, rcx\n    jge "@, "for_end_"@, n)
}

/// The tail of a counting loop: the increment and the jump back.
pub open spec fn for_tail(off: nat, n: nat) -> Seq<char> {
    load_asm(off) + "    add rax, 1\n"@ + store_asm(off) + jump("    jmp "@, "for_cond_"@, n) + label_line("for_end_"@, n)
}

/// `for v in start..end`: a counting loop over a fresh slot for `v`.
pub open spec fn for_asm(f: Seq<char>, is_main: bool, vars: Slots, g: Gen, fr: ForStmt) -> Option<(Seq<char>, Gen, Slots)>
    decreases fr, 0int,
{
    if g.labels < LIMIT && g.slot < LIMIT {
        let n = g.labels;
        let off = 8 * (g.slot + 1);
        match (
            expr_asm(vars, fr.start, false),
            expr_asm(vars, fr.end, false),
            block_asm(f, is_main, vars.push((fr.variable@, off)), Gen { labels: n + 1, slot: g.slot + 1, ..g }, fr.body),
        ) {
            (Some(sc), Some(ec), Some((bc, g2))) => Some((for_head(sc, ec, off, n) + bc + for_tail(off, n), g2, vars)),
            _ => None,
        }
    } else {
        None
    }
}

/// A block: its statements in order; the variables it declares are visible
/// only inside it.
pub open spec fn block_asm(f: Seq<char>, is_main: bool, vars: Slots, g: Gen, b: Block) -> Option<(Seq<char>, Gen)>
    decreases b, 0int,
{
    stmts_asm(f, is_main, vars, g, b.statements, 0)
}

pub open spec fn stmts_asm(f: Seq<char>, is_main: bool, vars: Slots, g: Gen, stmts: Vec<Stmt>, i: int) -> Option<(Seq<char>, Gen)>
    decreases stmts, stmts.len() - i,
{
    if 0 <= i < stmts.len() {
        match stmt_asm(f, is_main, vars, g, stmts@[i]) {
            Some((c, g2, v2)) => match stmts_asm(f, is_main, v2, g2, stmts, i + 1) {
                Some((rest, g3)) => Some((c + rest, g3)),
                None => None,
            },
            None => None,
        }
    } else {
        Some((Seq::empty(), g))
    }
}


/// The slots of a function's parameters: the `i`-th at offset `8 * (i + 1)`.
pub open spec fn param_slots(params: Seq<Parameter>) -> Slots {
    Seq::new(params.len(), |i: int| (params[i].name@, (8 * (i + 1)) as nat))
}

/// Stores parameter `j` into its slot: the first six come in registers, the
/// others on the caller's stack above the return address.
pub open spec fn spill_one(j: nat) -> Seq<char> {
    if j < 6 {
        "    mov QWORD [rbp-"@ + decimal(8 * (j + 1)) + "], "@ + arg_register(j) + "\n"@
    } else {
        "    mov rax, QWORD [rbp+"@ + decimal((16 + 8 * (j - 6)) as nat) + "]\n"@ + store_asm(8 * (j + 1))
    }
}

/// Stores the incoming parameters into their slots.
pub open spec fn spill_asm(params: Seq<Parameter>, j: nat) -> Seq<char>
    decreases params.len() - j,
{
    if j < params.len() {
        spill_one(j) + spill_asm(params, j + 1)
    } else {
        Seq::empty()
    }
}

/// A size rounded up to the 16-byte stack alignment of the calling convention.
pub open spec fn align16(x: nat) -> nat {
    ((x + 15) / 16) * 16
}

/// Reserves the frame for `slots` stack words.
pub open spec fn frame_asm(slots: nat) -> Seq<char> {
    if slots == 0 {
        Seq::empty()
    } else {
        "    sub rsp, "@ + decimal(align16(8 * slots)) + "\n"@
    }
}

pub open spec fn is_main_name(name: Seq<char>) -> bool {
    name == "main"@
}

/// A function: prologue, frame, parameters spilled to their slots, body, and an
/// epilogue (`main` returning 0). Gives the code, the next label number and the
/// data section after it.
pub open spec fn function_asm(fd: FunctionDecl, labels: nat, data: Seq<char>) -> Option<(Seq<char>, nat, Seq<char>)> {
    let is_main = is_main_name(fd.name@);
    if fd.params.len() > LIMIT {
        None
    } else {
        match block_asm(fd.name@, is_main, param_slots(fd.params@), Gen { labels, slot: fd.params.len() as nat, prints: 0, data }, fd.body) {
            Some((bc, g)) => if g.slot > LIMIT { None } else { Some((
                fd.name@ + ":\n    push rbp\n    mov rbp, rsp\n"@ + frame_asm(g.slot) + spill_asm(fd.params@, 0) + bc
                    + (if is_main { "    mov rax, 0\n"@ } else { ""@ }) + epilogue() + "\n"@,
                g.labels,
                g.data,
            )) },
            None => None,
        }
    }
}

/// The code of the declarations `ds[i..]`, all functions, and the final data section.
pub open spec fn decls_asm(ds: Seq<Declaration>, i: int, labels: nat, data: Seq<char>) -> Option<(Seq<char>, Seq<char>)>
    decreases ds.len() - i,
{
    if 0 <= i < ds.len() {
        match ds[i] {
            Declaration::Function(fd) => match function_asm(fd, labels, data) {
                Some((c, l2, d2)) => match decls_asm(ds, i + 1, l2, d2) {
                    Some((rest, dfin)) => Some((c + rest, dfin)),
                    None => None,
                },
                None => None,
            },
            Declaration::Variable(_) => None,
        }
    } else {
        Some((Seq::empty(), data))
    }
}

pub open spec fn text_header() -> Seq<char> {
    "\nsection .text\n    extern printf\n    global main\n\n"@
}

pub open spec fn data_header() -> Seq<char> {
    "section .data\n    newline db 10, 0\n"@
}

/// The assembly listing of a program, or `None` when some construct cannot be lowered.
pub open spec fn program_asm(p: Program) -> Option<Seq<char>> {
    match decls_asm(p.declarations@, 0, 0, Seq::empty()) {
        Some((code, data)) => Some(data_header() + data + text_header() + code),
        None => None,
    }
}

/// The text of a lowered statement.
pub open spec fn code_of(o: Option<(Seq<char>, Gen, Slots)>) -> Seq<char> {
    match o {
        Some((t, _, _)) => t,
        None => Seq::empty(),
    }
}

/// The text of a lowered output statement.
pub open spec fn print_code_of(o: Option<(Seq<char>, Gen)>) -> Seq<char> {
    match o {
        Some((t, _)) => t,
        None => Seq::empty(),
    }
}

/// The text of a lowered function.
pub open spec fn function_code_of(o: Option<(Seq<char>, nat, Seq<char>)>) -> Seq<char> {
    match o {
        Some((t, _, _)) => t,
        None => Seq::empty(),
    }
}

/// What was appended to `before` to give `after`.
pub open spec fn final_prefix(before: Seq<char>, after: Seq<char>) -> Seq<char> {
    after.subrange(before.len() as int, after.len() as int)
}

/// `b` extends `a`.
pub open spec fn extends<T>(a: Seq<T>, b: Seq<T>) -> bool {
    a.len() <= b.len() && b.subrange(0, a.len() as int) == a
}

fn emit_label_line(code: &mut String, kind: &str, n: usize)
    ensures
        final(code)@ == old(code)@ + label_line(kind@, n as nat),
{
    append(code, kind);
    append_decimal(code, n as u64);
    append(code, ":\n");
    assert(final(code)@ =~= old(code)@ + label_line(kind@, n as nat));
}

fn emit_jump(code: &mut String, instr: &str, kind: &str, n: usize)
    ensures
        final(code)@ == old(code)@ + jump(instr@, kind@, n as nat),
{
    append(code, instr);
    append(code, kind);
    append_decimal(code, n as u64);
    append(code, "\n");
    assert(final(code)@ =~= old(code)@ + jump(instr@, kind@, n as nat));
}

fn emit_epilogue(code: &mut String)
    ensures
        final(code)@ == old(code)@ + epilogue(),
{
    append(code, "    mov rsp, rbp\n    pop rbp\n    ret\n");
}

/// Appends `args[k]`, ..., `args[1]`, each evaluated and pushed.
fn emit_rev_args(vars: &Vec<(String, usize)>, args: &Vec<Expr>, k: usize, odd: bool, code: &mut String) -> (r: Result<(), CompilerError>)
    ensures
        result_emitted(old(code)@, final(code)@, rev_args_asm(slots_model(vars@), *args, k as int, odd), r),
    decreases k,
{
    if 1 <= k && k < args.len() {
        emit_expr(vars, &args[k], odd, code)?;
        append(code, "    push rax\n");
        emit_rev_args(vars, args, k - 1, !odd, code)?;
        assert(final(code)@ =~= old(code)@ + rev_args_asm(slots_model(vars@), *args, k as int, odd)->0);
        Ok(())
    } else {
        assert(final(code)@ =~= old(code)@ + Seq::<char>::empty());
        Ok(())
    }
}

fn emit_pop_fwd(code: &mut String, j: usize, m: usize)
    requires
        m <= 5,
    ensures
        final(code)@ == old(code)@ + pop_fwd_asm(j as nat, m as nat),
    decreases m - j,
{
    if j < m && j < 5 {
        append(code, "    pop ");
        append(code, arg_register_text(j + 1));
        append(code, "\n");
        emit_pop_fwd(code, j + 1, m);
        assert(final(code)@ =~= old(code)@ + pop_fwd_asm(j as nat, m as nat));
    } else {
        assert(final(code)@ =~= old(code)@ + pop_fwd_asm(j as nat, m as nat));
    }
}

/// Appends the `printf` form of `chars[i..]`.
fn emit_template(chars: &Vec<char>, i: usize, out: &mut String)
    requires
        i <= chars.len(),
    ensures
        final(out)@ == old(out)@ + printf_template(chars@.subrange(i as int, chars.len() as int)),
    decreases chars.len() - i,
{
    let ghost t = chars@.subrange(i as int, chars.len() as int);
    if i >= chars.len() {
        assert(t.len() == 0);
        assert(final(out)@ =~= old(out)@ + printf_template(t));
        return;
    }
    if i + 1 < chars.len() && chars[i] == '{' && chars[i + 1] == '}' {
        push_char(out, '%');
        push_char(out, 'd');
        assert(t.subrange(2, t.len() as int) =~= chars@.subrange(i + 2, chars.len() as int));
        emit_template(chars, i + 2, out);
        assert(final(out)@ =~= old(out)@ + printf_template(t));
    } else if chars[i] == '%' {
        push_char(out, '%');
        push_char(out, '%');
        assert(t.subrange(1, t.len() as int) =~= chars@.subrange(i + 1, chars.len() as int));
        emit_template(chars, i + 1, out);
        assert(final(out)@ =~= old(out)@ + printf_template(t));
    } else {
        push_char(out, chars[i]);
        assert(t.subrange(1, t.len() as int) =~= chars@.subrange(i + 1, chars.len() as int));
        emit_template(chars, i + 1, out);
        assert(final(out)@ =~= old(out)@ + printf_template(t));
    }
}

/// Lowers a parsed program to an x86-64 assembly listing (NASM syntax, calling
/// `printf` for output).
///
/// Labels come from one counter that only grows. Each variable, loop variables
/// included, gets its own stack slot when it is declared, and a block's
/// variables are visible only inside it; the frame reserved in the prologue
/// covers every slot the function uses. Format strings go to the data section
/// as their output statements are met.
pub struct CodeGenerator {
    current_function: String,
    is_main: bool,
    label_counter: usize,
    next_slot: usize,
    print_count: usize,
    data: String,
}

/// The code grew by the text of `o`, the state and visible variables are as
/// `o` says, or `o` is `None` and the result is a codegen error.
pub open spec fn emitted_as(
    g0: CodeGenerator,
    g1: CodeGenerator,
    v0: Seq<(String, usize)>,
    v1: Seq<(String, usize)>,
    c0: Seq<char>,
    c1: Seq<char>,
    o: Option<(Seq<char>, Gen, Slots)>,
    r: Result<(), CompilerError>,
) -> bool {
    &&& g1.fname() == g0.fname()
    &&& g1.in_main() == g0.in_main()
    &&& match o {
        Some((t, g, v)) => r is Ok && c1 == c0 + t && g1.gen() == g && slots_model(v1) == v && extends(v0, v1),
        None => r matches Err(e) && e is CodegenError,
    }
}

/// What lowering a statement promises: the code grew by its text, the state and
/// visible variables are as `stmt_asm` says, or a codegen error.
pub open spec fn stmt_emitted(
    g0: CodeGenerator,
    g1: CodeGenerator,
    v0: Seq<(String, usize)>,
    v1: Seq<(String, usize)>,
    c0: Seq<char>,
    c1: Seq<char>,
    s: Stmt,
    r: Result<(), CompilerError>,
) -> bool {
    &&& g1.fname() == g0.fname()
    &&& g1.in_main() == g0.in_main()
    &&& match stmt_asm(g0.fname(), g0.in_main(), slots_model(v0), g0.gen(), s) {
        Some((t, g, v)) => r is Ok && c1 == c0 + t && g1.gen() == g && slots_model(v1) == v && extends(v0, v1),
        None => r matches Err(e) && e is CodegenError,
    }
}

impl CodeGenerator {
    pub fn new() -> (r: CodeGenerator)
        ensures
            r.gen() == (Gen { labels: 0, slot: 0, prints: 0, data: Seq::empty() }),
    {
        CodeGenerator {
            current_function: String::new(),
            is_main: false,
            label_counter: 0,
            next_slot: 0,
            print_count: 0,
            data: String::new(),
        }
    }

    pub closed spec fn gen(&self) -> Gen {
        Gen {
            labels: self.label_counter as nat,
            slot: self.next_slot as nat,
            prints: self.print_count as nat,
            data: self.data@,
        }
    }

    pub closed spec fn fname(&self) -> Seq<char> {
        self.current_function@
    }

    pub closed spec fn in_main(&self) -> bool {
        self.is_main
    }

    #[verifier::rlimit(100)]
    fn gen_stmt(&mut self, vars: &mut Vec<(String, usize)>, s: &Stmt, code: &mut String) -> (r: Result<(), CompilerError>)
        ensures
            stmt_emitted(*old(self), *final(self), old(vars)@, final(vars)@, old(code)@, final(code)@, *s, r),
        decreases *s, 0int,
    {
        match s {
            Stmt::Expr(es) => {
                emit_expr(vars, &es.expr, false, code)?;
                assert(vars@.subrange(0, vars@.len() as int) =~= vars@);
                Ok(())
            },
            Stmt::Declaration(Declaration::Variable(v)) => {
                if self.next_slot >= LIMIT {
                    return Err(codegen_error("too many variables"));
                }
                emit_expr(vars, &v.initializer, false, code)?;
                let off = 8 * (self.next_slot + 1);
                emit_store(code, off);
                assert(code@ =~= old(code)@ + (expr_asm(slots_model(old(vars)@), v.initializer, false)->0 + store_asm(off as nat)));
                self.next_slot = self.next_slot + 1;
                let ghost before = vars@;
                vars.push((v.name.clone(), off));
                assert(slots_model(vars@) =~= slots_model(before).push((v.name@, off as nat)));
                assert(vars@.subrange(0, before.len() as int) =~= before);
                Ok(())
            },
            Stmt::Declaration(Declaration::Function(_)) => Err(codegen_error("nested functions are not supported")),
            Stmt::If(i) => self.gen_if(vars, i, code),
            Stmt::While(w) => self.gen_while(vars, w, code),
            Stmt::For(f) => self.gen_for(vars, f, code),
            Stmt::Return(ret) => {
                match &ret.value {
                    Some(v) => {
                        emit_expr(vars, v, false, code)?;
                    },
                    None => {
                        if self.is_main {
                            append(code, "    mov rax, 0\n");
                        } else {
                            append(code, "");
                        }
                    },
                }
                emit_epilogue(code);
                assert(code@ =~= old(code)@ + code_of(stmt_asm(old(self).fname(), old(self).in_main(), slots_model(old(vars)@), old(self).gen(), *s)));
                assert(vars@.subrange(0, vars@.len() as int) =~= vars@);
                Ok(())
            },
            Stmt::Block(b) => {
                self.gen_block(vars, b, code)?;
                assert(vars@.subrange(0, vars@.len() as int) =~= vars@);
                Ok(())
            },
            Stmt::Println(p) => {
                self.gen_print(vars, p, code)?;
                assert(vars@.subrange(0, vars@.len() as int) =~= vars@);
                Ok(())
            },
        }
    }
}

pub open spec fn block_emitted(
    g0: CodeGenerator,
    g1: CodeGenerator,
    v0: Seq<(String, usize)>,
    v1: Seq<(String, usize)>,
    c0: Seq<char>,
    c1: Seq<char>,
    b: Block,
    r: Result<(), CompilerError>,
) -> bool {
    &&& g1.fname() == g0.fname()
    &&& g1.in_main() == g0.in_main()
    &&& match block_asm(g0.fname(), g0.in_main(), slots_model(v0), g0.gen(), b) {
        Some((t, g)) => r is Ok && c1 == c0 + t && g1.gen() == g && v1 == v0,
        None => r matches Err(e) && e is CodegenError,
    }
}

/// `t` followed by what `rest` holds.
pub open spec fn then_text(t: Seq<char>, rest: Option<(Seq<char>, Gen)>) -> Option<(Seq<char>, Gen)> {
    match rest {
        Some((u, g)) => Some((t + u, g)),
        None => None,
    }
}

impl CodeGenerator {
    fn gen_block(&mut self, vars: &mut Vec<(String, usize)>, b: &Block, code: &mut String) -> (r: Result<(), CompilerError>)
        ensures
            block_emitted(*old(self), *final(self), old(vars)@, final(vars)@, old(code)@, final(code)@, *b, r),
        decreases *b, 0int,
    {
        let saved = vars.len();
        self.gen_stmts(vars, &b.statements, code)?;
        vars.truncate(saved);
        Ok(())
    }

    fn gen_stmts(&mut self, vars: &mut Vec<(String, usize)>, stmts: &Vec<Stmt>, code: &mut String) -> (r: Result<(), CompilerError>)
        ensures
            final(self).fname() == old(self).fname(),
            final(self).in_main() == old(self).in_main(),
            match stmts_asm(old(self).fname(), old(self).in_main(), slots_model(old(vars)@), old(self).gen(), *stmts, 0) {
                Some((t, g)) => r is Ok && final(code)@ == old(code)@ + t && final(self).gen() == g
                    && extends(old(vars)@, final(vars)@),
                None => r matches Err(e) && e is CodegenError,
            },
        decreases *stmts, stmts.len(),
    {
        let ghost f = self.fname();
        let ghost m = self.in_main();
        let mut k: usize = 0;
        assert(old(vars)@.subrange(0, old(vars)@.len() as int) =~= old(vars)@);
        assert(old(code)@.subrange(0, old(code)@.len() as int) =~= old(code)@);
        assert(code@ =~= old(code)@ + final_prefix(old(code)@, code@));
        while k < stmts.len()
            invariant
                k <= stmts.len(),
                f == old(self).fname(),
                m == old(self).in_main(),
                self.fname() == f,
                self.in_main() == m,
                extends(old(vars)@, vars@),
                extends(old(code)@, code@),
                stmts_asm(f, m, slots_model(old(vars)@), old(self).gen(), *stmts, 0) == then_text(
                    final_prefix(old(code)@, code@),
                    stmts_asm(f, m, slots_model(vars@), self.gen(), *stmts, k as int),
                ),
            decreases stmts.len() - k,
        {
            proof {
                assert(decreases_to!(*stmts => stmts[k as int]));
            }
            let ghost c_before = code@;
            let ghost v_before = vars@;
            self.gen_stmt(vars, &stmts[k], code)?;
            proof {
                assert(final_prefix(old(code)@, code@) =~= final_prefix(old(code)@, c_before) + final_prefix(c_before, code@));
                assert(code@.subrange(0, old(code)@.len() as int) =~= c_before.subrange(0, old(code)@.len() as int));
                assert(vars@.subrange(0, old(vars)@.len() as int) =~= v_before.subrange(0, old(vars)@.len() as int));
                match stmts_asm(f, m, slots_model(vars@), self.gen(), *stmts, k + 1) {
                    Some((rest, g)) => {
                        assert(final_prefix(old(code)@, c_before) + (final_prefix(c_before, code@) + rest)
                            =~= final_prefix(old(code)@, code@) + rest);
                    },
                    None => {},
                }
            }
            k = k + 1;
        }
        proof {
            assert(final_prefix(old(code)@, code@) + Seq::<char>::empty() =~= final_prefix(old(code)@, code@));
            assert(code@ =~= old(code)@ + final_prefix(old(code)@, code@));
        }
        Ok(())
    }
}

fn emit_if_text(code: &mut String, cc: &String, tc: &String, ec: Option<&String>, n: usize)
    ensures
        final(code)@ == old(code)@ + if_text(cc@, tc@, match ec { Some(e) => Some(e@), None => None }, n as nat),
{
    append(code, cc.as_str());
    match ec {
        None => {
            emit_jump(code, "    cmp rax, 0\n    je ", "if_end_", n);
            append(code, tc.as_str());
            emit_label_line(code, "if_end_", n);
        },
        Some(e) => {
            emit_jump(code, "    cmp rax, 0\n    je ", "if_else_", n);
            append(code, tc.as_str());
            emit_jump(code, "    jmp ", "if_end_", n);
            emit_label_line(code, "if_else_", n);
            append(code, e.as_str());
            emit_label_line(code, "if_end_", n);
        },
    }
    assert(final(code)@ =~= old(code)@ + if_text(cc@, tc@, match ec { Some(e) => Some(e@), None => None }, n as nat));
}

impl CodeGenerator {
    #[verifier::rlimit(100)]
    fn gen_if(&mut self, vars: &mut Vec<(String, usize)>, i: &IfStmt, code: &mut String) -> (r: Result<(), CompilerError>)
        ensures
            emitted_as(*old(self), *final(self), old(vars)@, final(vars)@, old(code)@, final(code)@, if_asm(old(self).fname(), old(self).in_main(), slots_model(old(vars)@), old(self).gen(), *i), r),
        decreases *i, 0int,
    {
        if self.label_counter >= LIMIT {
            return Err(codegen_error("too many labels"));
        }
        let n = self.label_counter;
        let mut cc = String::new();
        emit_expr(vars, &i.condition, false, &mut cc)?;
        self.label_counter = n + 1;
        let mut tc = String::new();
        self.gen_block(vars, &i.then_branch, &mut tc)?;
        assert(cc@ =~= expr_asm(slots_model(old(vars)@), i.condition, false)->0);
        assert(tc@ =~= Seq::<char>::empty() + tc@);
        match &i.else_branch {
            None => {
                emit_if_text(code, &cc, &tc, None, n);
            },
            Some(b) => {
                let saved = vars.len();
                let ghost v1 = vars@;
                let mut ec = String::new();
                self.gen_stmt(vars, b, &mut ec)?;
                assert(vars@.subrange(0, saved as int) =~= v1);
                vars.truncate(saved);
                assert(ec@ =~= Seq::<char>::empty() + ec@);
                emit_if_text(code, &cc, &tc, Some(&ec), n);
            },
        }
        assert(vars@.subrange(0, vars@.len() as int) =~= vars@);
        Ok(())
    }

    fn gen_while(&mut self, vars: &mut Vec<(String, usize)>, w: &WhileStmt, code: &mut String) -> (r: Result<(), CompilerError>)
        ensures
            emitted_as(*old(self), *final(self), old(vars)@, final(vars)@, old(code)@, final(code)@, while_asm(old(self).fname(), old(self).in_main(), slots_model(old(vars)@), old(self).gen(), *w), r),
        decreases *w, 0int,
    {
        if self.label_counter >= LIMIT {
            return Err(codegen_error("too many labels"));
        }
        let n = self.label_counter;
        let mut cc = String::new();
        emit_expr(vars, &w.condition, false, &mut cc)?;
        self.label_counter = n + 1;
        let mut bc = String::new();
        self.gen_block(vars, &w.body, &mut bc)?;
        assert(cc@ =~= expr_asm(slots_model(old(vars)@), w.condition, false)->0);
        emit_label_line(code, "while_cond_", n);
        append(code, cc.as_str());
        emit_jump(code, "    cmp rax, 0\n    je ", "while_end_", n);
        append(code, bc.as_str());
        emit_jump(code, "    jmp ", "while_cond_", n);
        emit_label_line(code, "while_end_", n);
        assert(vars@.subrange(0, vars@.len() as int) =~= vars@);
        assert(final(code)@ =~= old(code)@ + code_of(while_asm(old(self).fname(), old(self).in_main(), slots_model(old(vars)@), old(self).gen(), *w)));
        Ok(())
    }

    #[verifier::rlimit(100)]
    fn gen_for(&mut self, vars: &mut Vec<(String, usize)>, f: &ForStmt, code: &mut String) -> (r: Result<(), CompilerError>)
        ensures
            emitted_as(*old(self), *final(self), old(vars)@, final(vars)@, old(code)@, final(code)@, for_asm(old(self).fname(), old(self).in_main(), slots_model(old(vars)@), old(self).gen(), *f), r),
        decreases *f, 0int,
    {
        if self.label_counter >= LIMIT || self.next_slot >= LIMIT {
            return Err(codegen_error("too many labels or variables"));
        }
        let n = self.label_counter;
        let off = 8 * (self.next_slot + 1);
        let mut sc = String::new();
        emit_expr(vars, &f.start, false, &mut sc)?;
        let mut ec = String::new();
        emit_expr(vars, &f.end, false, &mut ec)?;
        assert(sc@ =~= expr_asm(slots_model(old(vars)@), f.start, false)->0);
        assert(ec@ =~= expr_asm(slots_model(old(vars)@), f.end, false)->0);
        self.label_counter = n + 1;
        self.next_slot = self.next_slot + 1;
        let ghost v0 = vars@;
        vars.push((f.variable.clone(), off));
        assert(slots_model(vars@) =~= slots_model(v0).push((f.variable@, off as nat)));
        let mut bc = String::new();
        self.gen_block(vars, &f.body, &mut bc)?;
        vars.pop();
        assert(vars@ =~= v0);
        let ghost c0 = code@;
        append(code, sc.as_str());
        emit_store(code, off);
        emit_label_line(code, "for_cond_", n);
        append(code, ec.as_str());
        append(code, "    mov rcx, rax\n");
        emit_load(code, off);
        emit_jump(code, "    cmp rax, rcx\n    jge ", "for_end_", n);
        assert(code@ =~= c0 + for_head(sc@, ec@, off as nat, n as nat));
        let ghost c1 = code@;
        append(code, bc.as_str());
        let ghost c2 = code@;
        emit_load(code, off);
        append(code, "    add rax, 1\n");
        emit_store(code, off);
        emit_jump(code, "    jmp ", "for_cond_", n);
        emit_label_line(code, "for_end_", n);
        assert(code@ =~= c2 + for_tail(off as nat, n as nat));
        assert(vars@.subrange(0, vars@.len() as int) =~= vars@);
        assert(final(code)@ =~= old(code)@ + (for_head(sc@, ec@, off as nat, n as nat) + bc@ + for_tail(off as nat, n as nat)));
        Ok(())
    }

    fn gen_print(&mut self, vars: &Vec<(String, usize)>, p: &PrintStmt, code: &mut String) -> (r: Result<(), CompilerError>)
        ensures
            final(self).fname() == old(self).fname(),
            final(self).in_main() == old(self).in_main(),
            match print_asm(old(self).fname(), slots_model(vars@), old(self).gen(), *p) {
                Some((t, g)) => r is Ok && final(code)@ == old(code)@ + t && final(self).gen() == g,
                None => r matches Err(e) && e is CodegenError,
            },
    {
        if p.args.len() == 0 {
            append(code, "    lea rdi, [rel newline]\n");
            append(code, "    xor eax, eax\n    call printf\n");
            return Ok(());
        }
        match &p.args[0] {
            Expr::Literal(Literal::String(t, _)) => {
                if p.args.len() > 6 || self.print_count >= LIMIT {
                    return Err(codegen_error("println! takes a template and at most five values"));
                }
                let ghost c0 = code@;
                emit_rev_args(vars, &p.args, p.args.len() - 1, false, code)?;
                emit_pop_fwd(code, 0, p.args.len() - 1);
                let mut label = String::from_str("fmt_");
                append(&mut label, self.current_function.as_str());
                append(&mut label, "_");
                append_decimal(&mut label, self.print_count as u64);
                assert(label@ =~= fmt_label(self.fname(), self.print_count as nat));
                append(code, "    lea rdi, [rel ");
                append(code, label.as_str());
                append(code, "]\n");
                append(code, "    xor eax, eax\n    call printf\n");
                let ghost d0 = self.data@;
                append(&mut self.data, "    ");
                append(&mut self.data, label.as_str());
                append(&mut self.data, " db \"");
                let chars = crate::text::chars_of(t.as_str());
                assert(chars@.subrange(0, chars@.len() as int) =~= t@);
                emit_template(&chars, 0, &mut self.data);
                append(&mut self.data, "\", 10, 0\n");
                assert(self.data@ =~= d0 + fmt_data(label@, t@));
                self.print_count = self.print_count + 1;
                assert(final(code)@ =~= c0 + print_code_of(print_asm(old(self).fname(), slots_model(vars@), old(self).gen(), *p)));
                Ok(())
            },
            _ => Err(codegen_error("println! needs a string literal template")),
        }
    }
}

/// `then` prefixed to the code part of `rest`.
pub open spec fn then_code(t: Seq<char>, rest: Option<(Seq<char>, Seq<char>)>) -> Option<(Seq<char>, Seq<char>)> {
    match rest {
        Some((c, d)) => Some((t + c, d)),
        None => None,
    }
}

fn emit_frame(code: &mut String, slots: usize)
    requires
        slots <= LIMIT,
    ensures
        final(code)@ == old(code)@ + frame_asm(slots as nat),
{
    if slots == 0 {
        assert(final(code)@ =~= old(code)@ + frame_asm(slots as nat));
        return;
    }
    let size: u64 = ((8 * slots as u64 + 15) / 16) * 16;
    append(code, "    sub rsp, ");
    append_decimal(code, size);
    append(code, "\n");
    assert(final(code)@ =~= old(code)@ + frame_asm(slots as nat));
}

fn emit_spill_one(code: &mut String, j: usize)
    requires
        j < LIMIT,
    ensures
        final(code)@ == old(code)@ + spill_one(j as nat),
{
    if j < MAX_REGISTER_ARGS {
        append(code, "    mov QWORD [rbp-");
        append_decimal(code, (8 * (j + 1)) as u64);
        append(code, "], ");
        append(code, arg_register_text(j));
        append(code, "\n");
    } else {
        append(code, "    mov rax, QWORD [rbp+");
        append_decimal(code, (16 + 8 * (j - 6)) as u64);
        append(code, "]\n");
        emit_store(code, 8 * (j + 1));
    }
    assert(final(code)@ =~= old(code)@ + spill_one(j as nat));
}

fn emit_spills(code: &mut String, params: &Vec<Parameter>, j: usize)
    requires
        params.len() <= LIMIT,
        j <= params.len(),
    ensures
        final(code)@ == old(code)@ + spill_asm(params@, j as nat),
    decreases params.len() - j,
{
    if j < params.len() {
        emit_spill_one(code, j);
        emit_spills(code, params, j + 1);
        assert(final(code)@ =~= old(code)@ + spill_asm(params@, j as nat));
    } else {
        assert(final(code)@ =~= old(code)@ + spill_asm(params@, j as nat));
    }
}

impl CodeGenerator {
    #[verifier::rlimit(100)]
    fn gen_function(&mut self, fd: &FunctionDecl, code: &mut String) -> (r: Result<(), CompilerError>)
        ensures
            match function_asm(*fd, old(self).gen().labels, old(self).gen().data) {
                Some((t, l, d)) => r is Ok && final(code)@ == old(code)@ + t && final(self).gen().labels == l
                    && final(self).gen().data == d,
                None => r matches Err(e) && e is CodegenError,
            },
    {
        if fd.params.len() > LIMIT {
            return Err(codegen_error("too many parameters"));
        }
        self.current_function = fd.name.clone();
        self.is_main = crate::types::str_eq(fd.name.as_str(), "main");
        self.next_slot = fd.params.len();
        self.print_count = 0;
        let mut vars: Vec<(String, usize)> = Vec::new();
        let mut k: usize = 0;
        while k < fd.params.len()
            invariant
                k <= fd.params.len() <= LIMIT,
                vars.len() == k,
                forall|i: int| 0 <= i < k ==> #[trigger] vars@[i].0@ == fd.params@[i].name@ && vars@[i].1 == 8 * (i + 1),
            decreases fd.params.len() - k,
        {
            vars.push((fd.params[k].name.clone(), 8 * (k + 1)));
            k = k + 1;
        }
        assert(slots_model(vars@) =~= param_slots(fd.params@));
        let mut body = String::new();
        self.gen_block(&mut vars, &fd.body, &mut body)?;
        if self.next_slot > LIMIT {
            return Err(codegen_error("too many variables"));
        }
        let ghost c0 = code@;
        append(code, fd.name.as_str());
        append(code, ":\n    push rbp\n    mov rbp, rsp\n");
        emit_frame(code, self.next_slot);
        emit_spills(code, &fd.params, 0);
        append(code, body.as_str());
        if self.is_main {
            append(code, "    mov rax, 0\n");
        } else {
            append(code, "");
        }
        emit_epilogue(code);
        append(code, "\n");
        assert(body@ =~= Seq::<char>::empty() + body@);
        assert(final(code)@ =~= c0 + function_code_of(function_asm(*fd, old(self).gen().labels, old(self).gen().data)));
        Ok(())
    }

    /// The assembly listing of a whole program: a data section with the format
    /// strings, then each function in order. Fails with a codegen error on a
    /// construct it does not lower: global variables, strings or floats in
    /// expressions, `&&` and `||`, more than six arguments or parameters, an
    /// output statement without a string template or with more than five values.
    pub fn generate(&mut self, program: &Program) -> (r: Result<String, CompilerError>)
        ensures
            match program_asm(*program) {
                Some(t) => r matches Ok(s) && s@ == t,
                None => r matches Err(e) && e is CodegenError,
            },
    {
        self.label_counter = 0;
        self.data = String::new();
        let ds = &program.declarations;
        let mut code = String::new();
        let mut k: usize = 0;
        while k < ds.len()
            invariant
                k <= ds.len(),
                ds@ == program.declarations@,
                decls_asm(ds@, 0, 0, Seq::empty()) == then_code(code@, decls_asm(ds@, k as int, self.gen().labels, self.gen().data)),
            decreases ds.len() - k,
        {
            match &ds[k] {
                Declaration::Function(fd) => {
                    let ghost c0 = code@;
                    self.gen_function(fd, &mut code)?;
                    proof {
                        match decls_asm(ds@, k + 1, self.gen().labels, self.gen().data) {
                            Some((rest, d)) => {
                                assert(c0 + (final_prefix(c0, code@) + rest) =~= code@ + rest);
                                assert(code@ =~= c0 + final_prefix(c0, code@));
                            },
                            None => {},
                        }
                    }
                },
                Declaration::Variable(_) => {
                    return Err(codegen_error("global variables are not supported"));
                },
            }
            k = k + 1;
        }
        assert(code@ + Seq::<char>::empty() =~= code@);
        let mut out = String::from_str("section .data\n    newline db 10, 0\n");
        append(&mut out, self.data.as_str());
        append(&mut out, "\nsection .text\n    extern printf\n    global main\n\n");
        append(&mut out, code.as_str());
        Ok(out)
    }
}

} // verus!

use rust_compiler::assembly::AssemblyCode;
use rust_compiler::codegen::CodeGenerator;
use rust_compiler::error::CompilerError;
use rust_compiler::error_handler::ErrorHandler;
use rust_compiler::parser::AstParser;
use rust_compiler::type_checker::TypeChecker;

/// Runs the four phases on a source text.
fn compile(source: &str) -> Result<String, CompilerError> {
    let program = AstParser::new(source).parse()?;
    let mut checker = TypeChecker::new(source.to_string());
    checker.check_program(&program)?;
    let mut generator = CodeGenerator::new();
    generator.generate(&program)
}

#[test]
fn test_code_generator() {
    let source = "fn main() { let x: i32 = 10; }";
    let program = AstParser::new(source).parse().unwrap();
    let mut code_gen = CodeGenerator::new();
    let result = code_gen.generate(&program);

    assert!(result.is_ok());
}

#[test]
fn exact_listing_of_a_small_main() {
    let listing = compile("fn main() { let x: i32 = 10; }").unwrap();
    let expected = [
        "section .data\n    newline db 10, 0\n\nsection .text\n    extern printf\n    global main\n\n",
        "main:\n    push rbp\n    mov rbp, rsp\n    sub rsp, 16\n    mov rax, 10\n    mov QWORD [rbp-8], rax\n",
        "    mov rax, 0\n    mov rsp, rbp\n    pop rbp\n    ret\n\n",
    ]
    .concat();
    assert_eq!(listing, expected);
}

#[test]
fn scenario_call_and_return() {
    let listing = compile("fn add(x: i32, y: i32) -> i32 { return x + y; } fn main() { let r: i32 = add(2, 3); }").unwrap();
    let add = [
        "add:\n    push rbp\n    mov rbp, rsp\n    sub rsp, 16\n    mov QWORD [rbp-8], rdi\n    mov QWORD [rbp-16], rsi\n",
        "    mov rax, QWORD [rbp-8]\n    push rax\n    mov rax, QWORD [rbp-16]\n    mov rcx, rax\n    pop rax\n    add rax, rcx\n",
        "    mov rsp, rbp\n    pop rbp\n    ret\n",
    ]
    .concat();
    assert!(listing.contains(add.as_str()), "{}", listing);
    let call = "    mov rax, 2\n    push rax\n    mov rax, 3\n    push rax\n    pop rsi\n    pop rdi\n    call add\n    mov QWORD [rbp-8], rax\n";
    assert!(listing.contains(call), "{}", listing);
    assert!(listing.contains("    mov rax, 0\n    mov rsp, rbp\n    pop rbp\n    ret\n"));
}

#[test]
fn scenario_for_loop_with_output() {
    let listing = compile("fn main() { for i in 0..3 { println!(\"i = {}\", i); } }").unwrap();
    assert!(listing.contains("    fmt_main_0 db \"i = %d\", 10, 0\n"), "{}", listing);
    let body = [
        "    mov rax, 0\n    mov QWORD [rbp-8], rax\nfor_cond_0:\n    mov rax, 3\n    mov rcx, rax\n    mov rax, QWORD [rbp-8]\n",
        "    cmp rax, rcx\n    jge for_end_0\n    mov rax, QWORD [rbp-8]\n    push rax\n    pop rsi\n    lea rdi, [rel fmt_main_0]\n",
        "    xor eax, eax\n    call printf\n    mov rax, QWORD [rbp-8]\n    add rax, 1\n    mov QWORD [rbp-8], rax\n    jmp for_cond_0\nfor_end_0:\n",
    ]
    .concat();
    assert!(listing.contains(body.as_str()), "{}", listing);
}

#[test]
fn scenario_if_else_compiles_and_bad_condition_does_not() {
    let good = "fn main() { let x: i32 = 1; let y: i32 = 2; if x < y { println!(\"less\"); } else { println!(\"more\"); } }";
    let listing = compile(good).unwrap();
    assert!(listing.contains("    cmp rax, rcx\n    setl al\n    movzx rax, al\n    cmp rax, 0\n    je if_else_0\n"));
    assert!(listing.contains("    jmp if_end_0\nif_else_0:\n"));
    assert!(listing.contains("if_end_0:\n"));
    assert!(listing.contains("    fmt_main_0 db \"less\", 10, 0\n    fmt_main_1 db \"more\", 10, 0\n"));
    let bad = "fn main() { let x: i32 = 1; if x < \"y\" { println!(\"less\"); } else { println!(\"more\"); } }";
    assert!(matches!(compile(bad), Err(CompilerError::TypeError { .. })));
}

#[test]
fn labels_are_never_reused() {
    let listing = compile("fn main() { while false { } while false { } } fn f() { if true { } }").unwrap();
    assert!(listing.contains("while_cond_0:\n"));
    assert!(listing.contains("while_cond_1:\n"));
    assert!(listing.contains("if_end_2:\n"));
}

#[test]
fn templates_escape_percent_signs() {
    let listing = compile("fn main() { println!(\"100% of {}\", 7); println!(); }").unwrap();
    assert!(listing.contains("    fmt_main_0 db \"100%% of %d\", 10, 0\n"), "{}", listing);
    assert!(listing.contains("    lea rdi, [rel newline]\n    xor eax, eax\n    call printf\n"));
}

#[test]
fn nested_block_variables_get_their_own_slots() {
    let listing = compile("fn main() { let a: i32 = 1; { let a: i32 = 2; } let b: i32 = a; }").unwrap();
    assert!(listing.contains("    sub rsp, 32\n"), "{}", listing);
    assert!(listing.contains("    mov rax, QWORD [rbp-8]\n    mov QWORD [rbp-24], rax\n"), "{}", listing);
}

#[test]
fn division_modulo_and_unary_operators() {
    let listing = compile("fn main() { let a: i32 = -7 / 2 % 3; let b: i64 = +1; }").unwrap();
    assert!(listing.contains("    mov rax, 7\n    neg rax\n"));
    assert!(listing.contains("    cqo\n    idiv rcx\n    push rax\n") || listing.contains("    cqo\n    idiv rcx\n"));
    assert!(listing.contains("    cqo\n    idiv rcx\n    mov rax, rdx\n"));
    assert!(listing.contains("    mov rax, 1\n    mov QWORD [rbp-16], rax\n"));
}

#[test]
fn call_inside_an_operand_keeps_the_stack_aligned() {
    let listing = compile("fn one() -> i32 { return 1; } fn main() { let a: i32 = 1 + one(); }").unwrap();
    assert!(listing.contains("    push rax\n    sub rsp, 8\n    call one\n    add rsp, 8\n"), "{}", listing);
}

#[test]
fn unsupported_constructs_are_codegen_errors() {
    let cases = [
        "fn main() { let s: str = \"a\"; }",
        "let x: i32 = 1;",
        "fn main() { let b: bool = true && false; }",
        "fn main() { let f: f64 = 1.5; }",
        "fn main() { let n: i32 = 1; println!(n); }",
    ];
    for source in cases.iter() {
        assert!(matches!(compile(source), Err(CompilerError::CodegenError { .. })), "{}", source);
    }
}

#[test]
fn assembly_code_collects_lines() {
    let mut listing = AssemblyCode::new();
    listing.add_line("section .text");
    listing.add_line("    ret");
    assert_eq!(listing.to_string(), "section .text\n    ret\n");
}

#[test]
fn error_lines_name_file_and_line() {
    let handler = ErrorHandler::new("prog.rs".to_string());
    assert_eq!(handler.format_error(3, "syntax error"), "prog.rs:3: syntax error");
    assert_eq!(handler.format_error(0, "cannot write"), "prog.rs: cannot write");
}

#[test]
fn example_program_with_helper_functions() {
    let source = "fn main() {
    let x: i32 = 10;
    let y: i32 = 20;
    println!(\"x = {}, y = {}\", x, y);
    println!(\"{} + {} = {}\", x, y, sum(x, y));
    println!(\"{} - {} = {}\", x, y, diff(x, y));
    println!(\"{} / {} = {} (division enti\u{e8}re)\", x, y, divide(x, y));
    println!(\"{} * {} = {}\", x, y, mult(x, y));
}
fn sum(x: i32, y: i32) -> i32 { return x + y; }
fn diff(x: i32, y: i32) -> i32 { return x - y; }
fn divide(x: i32, y: i32) -> i32 { return x / y; }
fn mult(x: i32, y: i32) -> i32 { return x * y; }";
    let listing = compile(source).unwrap();
    assert!(listing.contains("    fmt_main_0 db \"x = %d, y = %d\", 10, 0\n"));
    assert!(listing.contains("    fmt_main_3 db \"%d / %d = %d (division enti\u{e8}re)\", 10, 0\n"));
    for name in ["sum", "diff", "divide", "mult"].iter() {
        assert!(listing.contains(&format!("{}:\n    push rbp\n", name)));
        assert!(listing.contains(&format!("    call {}\n", name)));
    }
}

#[test]
fn line_numbers_count_line_feeds() {
    let source = "fn main() {\n    let x = 1\n}\n";
    assert_eq!(rust_compiler::error_handler::line_of(source, 0), 1);
    assert_eq!(rust_compiler::error_handler::line_of(source, 12), 2);
    assert_eq!(rust_compiler::error_handler::line_of(source, 26), 3);
    assert_eq!(rust_compiler::error_handler::line_of(source, 1000), 4);
}

#[test]
fn arguments_after_the_sixth_go_on_the_stack() {
    let source = "fn f(a: i32, b: i32, c: i32, d: i32, e: i32, g: i32, h: i32, k: i32) -> i32 { return h + k; }
fn main() { let r: i32 = f(1, 2, 3, 4, 5, 6, 7, 8); }";
    let listing = compile(source).unwrap();
    let call = [
        "    sub rsp, 16\n    mov rax, 1\n    push rax\n",
        "    mov rax, 2\n    push rax\n    mov rax, 3\n    push rax\n    mov rax, 4\n    push rax\n",
        "    mov rax, 5\n    push rax\n    mov rax, 6\n    push rax\n",
        "    mov rax, 7\n    mov QWORD [rsp+48], rax\n",
        "    mov rax, 8\n    mov QWORD [rsp+56], rax\n",
        "    pop r9\n    pop r8\n    pop rcx\n    pop rdx\n    pop rsi\n    pop rdi\n",
        "    call f\n    add rsp, 16\n",
    ]
    .concat();
    assert!(listing.contains(call.as_str()), "{}", listing);
    let spills = [
        "    mov QWORD [rbp-48], r9\n",
        "    mov rax, QWORD [rbp+16]\n    mov QWORD [rbp-56], rax\n",
        "    mov rax, QWORD [rbp+24]\n    mov QWORD [rbp-64], rax\n",
    ]
    .concat();
    assert!(listing.contains(spills.as_str()), "{}", listing);
}

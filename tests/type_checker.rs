use rust_compiler::ast;
use rust_compiler::error::CompilerError;
use rust_compiler::parser::AstParser;
use rust_compiler::type_checker::TypeChecker;
use rust_compiler::types::{from_ast_type, types_equal, Type, TypeEnvironment};

fn check(source: &str) -> Result<(), CompilerError> {
    let program = AstParser::new(source).parse().expect("the source parses");
    let mut checker = TypeChecker::new(source.to_string());
    checker.check_program(&program)
}

fn type_error_message(source: &str) -> String {
    match check(source) {
        Err(CompilerError::TypeError { message, .. }) => message,
        other => panic!("expected a type error, got {:?}", other),
    }
}

const ADD: &str = "fn add(x: i32, y: i32) -> i32 { return x + y; }";

#[test]
fn well_typed_program_with_forward_call() {
    let source = "fn main() { let r: i32 = add(2, 3); } fn add(x: i32, y: i32) -> i32 { return x + y; }";
    assert!(check(source).is_ok());
}

#[test]
fn string_return_in_i32_function_names_both_types() {
    let message = type_error_message("fn f() -> i32 { return \"hello\"; }");
    assert_eq!(message, "Return type mismatch: expected i32, found str");
    assert!(message.contains("i32"));
    assert!(message.contains("str"));
}

#[test]
fn call_with_too_few_arguments_cites_the_count() {
    let source = format!("{} fn main() {{ let r: i32 = add(1); }}", ADD);
    assert_eq!(type_error_message(&source), "Function add takes 2 arguments but 1 were provided");
}

#[test]
fn call_with_wrong_argument_type_cites_the_index() {
    let source = format!("{} fn main() {{ let r: i32 = add(1, \"two\"); }}", ADD);
    assert_eq!(type_error_message(&source), "Type mismatch in argument 1: expected i32, found str");
}

#[test]
fn if_with_well_typed_condition_checks() {
    let source = "fn main() { let x: i32 = 1; let y: i32 = 2; if x < y { println!(\"less\"); } else { println!(\"more\"); } }";
    assert!(check(source).is_ok());
}

#[test]
fn comparing_int_with_string_is_rejected() {
    let source = "fn main() { let x: i32 = 1; if x < \"y\" { println!(\"less\"); } else { println!(\"more\"); } }";
    assert_eq!(type_error_message(source), "Cannot apply operator < to types i32 and str");
}

#[test]
fn mixed_arithmetic_widens_to_float() {
    assert!(check("let z: f64 = 1 + 2.5;").is_ok());
    assert_eq!(type_error_message("let z: i32 = 1 + 2.5;"), "Type mismatch: expected i32, found f64");
}

#[test]
fn ordering_needs_two_ints_or_two_floats() {
    assert!(check("let b: bool = 1.5 < 2.5;").is_ok());
    assert!(check("let b: bool = 1 < 2.5;").is_err());
}

#[test]
fn equality_needs_equal_types() {
    assert!(check("let b: bool = true == false;").is_ok());
    assert_eq!(type_error_message("let b: bool = 1 == true;"), "Cannot apply operator == to types i32 and bool");
}

#[test]
fn logical_operators_need_booleans() {
    assert!(check("let b: bool = true && false || false;").is_ok());
    assert!(check("let b: bool = 1 && true;").is_err());
}

#[test]
fn unary_operators() {
    assert!(check("let a: i32 = -5; let b: f64 = -2.5; let c: i32 = +1;").is_ok());
    assert_eq!(type_error_message("let a: bool = -true;"), "Cannot negate value of type bool");
}

#[test]
fn undefined_names_are_type_errors() {
    assert_eq!(type_error_message("fn main() { let a: i32 = b; }"), "Undefined variable: b");
    assert_eq!(type_error_message("fn main() { b = 1; }"), "Undefined variable: b");
    assert_eq!(type_error_message("fn main() { g(); }"), "Undefined function: g");
}

#[test]
fn calling_a_variable_is_rejected() {
    assert_eq!(type_error_message("fn main() { let v: i32 = 1; v(); }"), "v is not a function");
}

#[test]
fn assignment_keeps_the_declared_type() {
    assert!(check("fn main() { let mut a: i32 = 1; a = 2; }").is_ok());
    assert_eq!(
        type_error_message("fn main() { let mut a: i32 = 1; a = true; }"),
        "Cannot assign value of type bool to variable of type i32"
    );
}

#[test]
fn conditions_must_be_boolean() {
    assert_eq!(type_error_message("fn main() { if 1 { } }"), "If condition must be a boolean, found i32");
    assert_eq!(type_error_message("fn main() { while 1 { } }"), "While condition must be a boolean, found i32");
}

#[test]
fn loop_variable_is_an_int_in_the_loop_only() {
    assert!(check("fn main() { for i in 0..3 { let j: i32 = i; } }").is_ok());
    assert_eq!(type_error_message("fn main() { for i in 0..3 { } let j: i32 = i; }"), "Undefined variable: i");
}

#[test]
fn block_variables_do_not_escape() {
    assert_eq!(type_error_message("fn main() { { let a: i32 = 1; } let b: i32 = a; }"), "Undefined variable: a");
}

#[test]
fn unit_return_in_unit_function() {
    assert!(check("fn f() { return; }").is_ok());
    assert_eq!(type_error_message("fn f() -> i32 { return; }"), "Return type mismatch: expected i32, found ()");
}

#[test]
fn i64_is_an_integer_type() {
    assert!(check("fn f(a: i64) -> i64 { let b: i32 = a + 1; return b; }").is_ok());
    assert!(matches!(from_ast_type(&ast::Type::I64), Type::Int));
}

#[test]
fn unbound_name_error_has_its_span() {
    match check("fn main() { let a: i32 = zz; }") {
        Err(CompilerError::TypeError { span, message }) => {
            assert_eq!(message, "Undefined variable: zz");
            assert_eq!((span.start, span.end), (25, 27));
        }
        other => panic!("expected a type error, got {:?}", other),
    }
}

#[test]
fn argument_error_has_the_argument_span() {
    let source = format!("{} fn main() {{ let r: i32 = add(1, \"two\"); }}", ADD);
    match check(&source) {
        Err(CompilerError::TypeError { span, .. }) => assert_eq!(&source[span.start..span.end], "\"two\""),
        other => panic!("expected a type error, got {:?}", other),
    }
}

#[test]
fn parameters_are_in_scope() {
    assert!(check("fn f(a: bool, s: str) -> bool { return a; }").is_ok());
}

#[test]
fn environment_scopes_and_shadowing() {
    let mut env = TypeEnvironment::new();
    assert!(env.lookup("x").is_none());
    env.define("x".to_string(), Type::Int);
    assert!(matches!(env.lookup("x"), Some(Type::Int)));
    env.enter_scope();
    env.define("x".to_string(), Type::Bool);
    assert!(matches!(env.lookup("x"), Some(Type::Bool)));
    env.define("x".to_string(), Type::Float);
    assert!(matches!(env.lookup("x"), Some(Type::Float)));
    env.exit_scope();
    assert!(matches!(env.lookup("x"), Some(Type::Int)));
    env.exit_scope();
    assert!(matches!(env.lookup("x"), Some(Type::Int)));
}

#[test]
fn ast_types_map_to_checker_types() {
    assert!(matches!(from_ast_type(&ast::Type::I32), Type::Int));
    assert!(matches!(from_ast_type(&ast::Type::F64), Type::Float));
    assert!(matches!(from_ast_type(&ast::Type::Bool), Type::Bool));
    assert!(matches!(from_ast_type(&ast::Type::Str), Type::String));
}

#[test]
fn function_types_compare_structurally() {
    let f = Type::Function { params: vec![Type::Int, Type::Bool], return_type: Box::new(Type::Int) };
    let g = Type::Function { params: vec![Type::Int, Type::Bool], return_type: Box::new(Type::Int) };
    let h = Type::Function { params: vec![Type::Int], return_type: Box::new(Type::Int) };
    assert!(types_equal(&f, &g));
    assert!(!types_equal(&f, &h));
    assert!(!types_equal(&Type::Int, &Type::Float));
    assert_eq!(f.name(), "function");
    assert_eq!(Type::Unit.name(), "()");
}

#[test]
fn check_identifier_reports_unbound_names() {
    let checker = TypeChecker::new(String::new());
    let ident = ast::Identifier { name: "nope".to_string(), span: rust_compiler::span::Span::new(3, 7) };
    match checker.check_identifier(&ident) {
        Err(CompilerError::TypeError { span, message }) => {
            assert_eq!((span.start, span.end), (3, 7));
            assert_eq!(message, "Undefined variable: nope");
        }
        other => panic!("expected a type error, got {:?}", other),
    }
}

#[test]
fn every_width_is_a_type_name() {
    let source = "fn f(a: i8, b: i16, c: i128, d: f32, s: String) -> i64 { let x: f64 = d + 1.5; let t: str = s; return a + b + c; }";
    assert!(check(source).is_ok());
    assert!(matches!(from_ast_type(&ast::Type::F32), Type::Float));
    assert!(matches!(from_ast_type(&ast::Type::String), Type::String));
}

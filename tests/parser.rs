use rust_compiler::ast::{BinaryExpr, BinaryOp, Declaration, Expr, Literal, Stmt, Type, UnaryOp};
use rust_compiler::error::CompilerError;
use rust_compiler::lexer::tokenize;
use rust_compiler::parser::{parse_int, AstParser, Parser};
use rust_compiler::span::Node;

fn parse_expression(input: &str) -> Option<Expr> {
    let tokens = tokenize(input).ok()?;
    let mut parser = Parser::new(tokens);
    parser.parse_expression().ok()
}

/// The structure of an expression, spans left out.
fn shape(e: &Expr) -> String {
    match e {
        Expr::Binary(b) => format!("({} {:?} {})", shape(&b.left), b.op, shape(&b.right)),
        Expr::Unary(u) => format!("({:?} {})", u.op, shape(&u.expr)),
        Expr::Literal(Literal::Int(v, _)) => format!("{}", v),
        Expr::Literal(Literal::Float(t, _)) => t.clone(),
        Expr::Literal(Literal::Bool(b, _)) => format!("{}", b),
        Expr::Literal(Literal::String(s, _)) => format!("{:?}", s),
        Expr::Identifier(i) => i.name.clone(),
        Expr::Call(c) => format!("{}({})", shape(&c.callee), c.arguments.iter().map(shape).collect::<Vec<_>>().join(", ")),
        Expr::Assign(a) => format!("({} = {})", shape(&a.target), shape(&a.value)),
    }
}

fn binary(e: &Expr) -> &BinaryExpr {
    match e {
        Expr::Binary(b) => b,
        other => panic!("expected a binary expression, got {:?}", other),
    }
}

#[test]
fn test_parse_simple_function() {
    let source = r#"
        fn add(x: i32, y: i32) -> i32 {
            return x + y;
        }
        "#;

    let parser = AstParser::new(source);
    let result = parser.parse();

    assert!(result.is_ok());
    let program = result.unwrap();

    assert_eq!(program.declarations.len(), 1);
    match &program.declarations[0] {
        Declaration::Function(f) => {
            assert_eq!(f.name, "add");
            assert_eq!(f.params.len(), 2);
            assert_eq!(f.params[0].name, "x");
            assert_eq!(f.params[1].name, "y");
        }
        _ => panic!("Expected function declaration"),
    }
}

#[test]
fn test_parse_variable_declaration() {
    let source = "let x: i32 = 42;";

    let parser = AstParser::new(source);
    let result = parser.parse();

    assert!(result.is_ok());
    let program = result.unwrap();

    assert_eq!(program.declarations.len(), 1);
    match &program.declarations[0] {
        Declaration::Variable(v) => {
            assert_eq!(v.name, "x");
            assert!(!v.is_mutable);
            match &v.typ {
                Some(Type::I32) => {}
                _ => panic!("Expected i32 type"),
            }
            match &v.initializer {
                Expr::Literal(Literal::Int(42, _)) => {}
                _ => panic!("Expected integer literal 42"),
            }
        }
        _ => panic!("Expected variable declaration"),
    }
}

#[test]
fn test_single_number() {
    let ast = parse_expression("42");
    assert!(matches!(ast, Some(Expr::Literal(Literal::Int(42, _)))));
}

#[test]
fn test_simple_addition() {
    let ast = parse_expression("2 + 3");
    if let Some(Expr::Binary(b)) = ast {
        assert_eq!(b.op, BinaryOp::Add);
        assert!(matches!(*b.left, Expr::Literal(Literal::Int(2, _))));
        assert!(matches!(*b.right, Expr::Literal(Literal::Int(3, _))));
    } else {
        panic!("the tree is not an addition");
    }
}

#[test]
fn test_simple_multiplication() {
    let ast = parse_expression("4 * 5");
    if let Some(Expr::Binary(b)) = ast {
        assert_eq!(b.op, BinaryOp::Mul);
        assert!(matches!(*b.left, Expr::Literal(Literal::Int(4, _))));
        assert!(matches!(*b.right, Expr::Literal(Literal::Int(5, _))));
    } else {
        panic!("the tree is not a multiplication");
    }
}

#[test]
fn test_operator_precedence() {
    let ast = parse_expression("2 + 3 * 4").expect("parses");
    let add = binary(&ast);
    assert_eq!(add.op, BinaryOp::Add);
    assert!(matches!(*add.left, Expr::Literal(Literal::Int(2, _))));
    let mul = binary(&add.right);
    assert_eq!(mul.op, BinaryOp::Mul);
    assert!(matches!(*mul.left, Expr::Literal(Literal::Int(3, _))));
    assert!(matches!(*mul.right, Expr::Literal(Literal::Int(4, _))));
}

#[test]
fn test_parentheses() {
    let ast = parse_expression("(2 + 3) * 4").expect("parses");
    let mul = binary(&ast);
    assert_eq!(mul.op, BinaryOp::Mul);
    assert!(matches!(*mul.right, Expr::Literal(Literal::Int(4, _))));
    let add = binary(&mul.left);
    assert_eq!(add.op, BinaryOp::Add);
    assert!(matches!(*add.left, Expr::Literal(Literal::Int(2, _))));
    assert!(matches!(*add.right, Expr::Literal(Literal::Int(3, _))));
}

#[test]
fn test_invalid_expression() {
    let ast = parse_expression("2 + * 3");
    assert!(ast.is_none(), "consecutive operators must be rejected");
}

#[test]
fn test_unmatched_parentheses() {
    let ast = parse_expression("(2 + 3");
    assert!(ast.is_none(), "an unclosed parenthesis must be rejected");
}

#[test]
fn test_empty_expression() {
    let ast = parse_expression("");
    assert!(ast.is_none(), "an empty expression must be rejected");
}

#[test]
fn unary_plus_after_binary_plus() {
    assert_eq!(shape(&parse_expression("2 + + 3").unwrap()), "(2 Add (Pos 3))");
}

#[test]
fn test_complex_expression() {
    let ast = parse_expression("2 * (3 + 4 * 5) + 6");
    assert!(ast.is_some(), "a complex expression must be accepted");
}

#[test]
fn test_whitespace_handling() {
    let ast1 = parse_expression("2+3").map(|e| shape(&e));
    let ast2 = parse_expression("2 + 3").map(|e| shape(&e));
    let ast3 = parse_expression("2    +    3").map(|e| shape(&e));

    assert_eq!(ast1, ast2, "spaces must not change the tree");
    assert_eq!(ast2, ast3, "runs of spaces must not change the tree");
    assert!(ast1.is_some());
}

#[test]
fn binary_operators_associate_left() {
    assert_eq!(shape(&parse_expression("1 - 2 - 3").unwrap()), "((1 Sub 2) Sub 3)");
    assert_eq!(shape(&parse_expression("8 / 4 % 3").unwrap()), "((8 Div 4) Mod 3)");
}

#[test]
fn precedence_ladder() {
    assert_eq!(
        shape(&parse_expression("a = b || c && d == e < f + g * -h").unwrap()),
        "(a = (b Or (c And (d Eq (e Lt (f Add (g Mul (Neg h))))))))"
    );
}

#[test]
fn assignment_is_right_associative() {
    assert_eq!(shape(&parse_expression("a = b = 1").unwrap()), "(a = (b = 1))");
}

#[test]
fn assignment_to_a_non_name_is_rejected() {
    let tokens = tokenize("1 + 2 = 3").unwrap();
    let mut parser = Parser::new(tokens);
    match parser.parse_expression() {
        Err(CompilerError::ParserError { message, .. }) => assert_eq!(message, "invalid assignment target"),
        other => panic!("expected a parser error, got {:?}", other),
    }
}

#[test]
fn calls_and_unary_operators() {
    assert_eq!(shape(&parse_expression("add(1, f(2), -ok)").unwrap()), "add(1, f(2), (Neg ok))");
    assert_eq!(shape(&parse_expression("+x").unwrap()), "(Pos x)");
    assert!(matches!(parse_expression("-x"), Some(Expr::Unary(u)) if u.op == UnaryOp::Neg));
}

#[test]
fn bare_bang_between_operands_is_rejected() {
    assert!(parse_expression("2 ! 3").is_none());
    assert!(parse_expression("!x").is_none());
    assert!(matches!(AstParser::new("fn main() { let x = !true; }").parse(), Err(CompilerError::LexerError { .. })));
    assert!(AstParser::new("fn main() { let x = 5 !; }").parse().is_err());
}

#[test]
fn spans_cover_the_source_extent() {
    let e = parse_expression("(2 + 3) * 4").unwrap();
    let span = e.span();
    assert_eq!((span.start, span.end), (0, 11));
    let mul = binary(&e);
    let inner = mul.left.span();
    assert_eq!((inner.start, inner.end), (0, 7));
}

#[test]
fn integer_literal_out_of_range_is_a_parse_error() {
    assert!(parse_expression("2147483647").is_some());
    assert!(parse_expression("2147483648").is_none());
    assert_eq!(parse_int("2147483647"), Some(2147483647));
    assert_eq!(parse_int("0042"), Some(42));
    assert_eq!(parse_int("2147483648"), None);
    assert_eq!(parse_int(""), None);
    assert_eq!(parse_int("12a"), None);
}

#[test]
fn statements_of_every_kind() {
    let source = "fn main() {
        let mut i = 0;
        while i < 3 { i = i + 1; }
        for j in 0..3 { println!(\"j = {}\", j); }
        if i == 3 { return; } else if i > 3 { { let k: bool = true; } } else { i = 0; }
    }";
    let program = AstParser::new(source).parse().expect("parses");
    let f = match &program.declarations[0] {
        Declaration::Function(f) => f,
        _ => panic!("expected a function"),
    };
    assert!(f.return_type.is_none());
    let body = &f.body.statements;
    assert_eq!(body.len(), 4);
    assert!(matches!(&body[0], Stmt::Declaration(Declaration::Variable(v)) if v.is_mutable && v.typ.is_none()));
    assert!(matches!(&body[1], Stmt::While(_)));
    match &body[2] {
        Stmt::For(fr) => {
            assert_eq!(fr.variable, "j");
            assert!(matches!(fr.start, Expr::Literal(Literal::Int(0, _))));
            assert!(matches!(fr.end, Expr::Literal(Literal::Int(3, _))));
            assert!(matches!(&fr.body.statements[0], Stmt::Println(p) if p.args.len() == 2));
        }
        _ => panic!("expected a for loop"),
    }
    match &body[3] {
        Stmt::If(i) => match &i.else_branch {
            Some(b) => assert!(matches!(**b, Stmt::If(_))),
            None => panic!("expected an else branch"),
        },
        _ => panic!("expected an if"),
    }
}

#[test]
fn missing_semicolon_is_reported_at_the_current_token() {
    match AstParser::new("fn main() { let x = 1 }").parse() {
        Err(CompilerError::ParserError { span, message }) => {
            assert_eq!(message, "expected ';' after declaration");
            assert_eq!(span.start, 22);
        }
        other => panic!("expected a parser error, got {:?}", other),
    }
}

#[test]
fn lexer_errors_surface_through_the_source_parser() {
    assert!(matches!(AstParser::new("fn main() { $ }").parse(), Err(CompilerError::LexerError { .. })));
}

#[test]
fn i64_annotations_parse() {
    let program = AstParser::new("fn f(a: i64) -> i64 { let b: i64 = a; return b; }").parse().unwrap();
    match &program.declarations[0] {
        Declaration::Function(f) => {
            assert_eq!(f.params[0].typ, Type::I64);
            assert_eq!(f.return_type, Some(Type::I64));
        }
        _ => panic!("expected a function"),
    }
    let v = AstParser::new("let x: i32 = 42;").parse().unwrap();
    assert_eq!((v.span.start, v.span.end), (0, 16));
}

#[test]
fn empty_program_has_no_declarations() {
    let program = AstParser::new("").parse().unwrap();
    assert_eq!(program.declarations.len(), 0);
}

use rust_compiler::error::CompilerError;
use rust_compiler::lexer::{tokenize, Lexer};
use rust_compiler::token::{Token, TokenWithSpan};

fn kinds(tokens: &[TokenWithSpan]) -> Vec<Token> {
    tokens.iter().map(|t| t.token).collect()
}

#[test]
fn test_lexer_simple() {
    let source = "let x = 5;";
    let mut lexer = Lexer::new(source);
    let tokens = lexer.tokenize().unwrap();

    assert_eq!(tokens.len(), 5);
    assert_eq!(tokens[0].token, Token::Let);
    assert_eq!(tokens[1].token, Token::Ident);
    assert_eq!(tokens[2].token, Token::Assign);
    assert_eq!(tokens[3].token, Token::IntLiteral);
    assert_eq!(tokens[4].token, Token::Semicolon);
}

#[test]
fn test_lexer_function() {
    let source = "fn add(x: i32, y: i32) -> i32 { return x + y; }";
    let mut lexer = Lexer::new(source);
    let tokens = lexer.tokenize().unwrap();

    assert!(tokens.len() > 10);
    assert_eq!(tokens[0].token, Token::Fn);
    assert_eq!(tokens[1].token, Token::Ident);
    assert_eq!(tokens[2].token, Token::LParen);
}

#[test]
fn tokens_carry_spans_and_text() {
    let tokens = tokenize("let abc = 42;").unwrap();
    assert_eq!(tokens[1].span, (4, 7));
    assert_eq!(tokens[1].text, "abc");
    assert_eq!(tokens[3].span, (10, 12));
    assert_eq!(tokens[3].text, "42");
}

#[test]
fn tokenization_is_deterministic() {
    let source = "fn main() { let x: i32 = 1 + 2 * 3; println!(\"{}\", x); }";
    let a = tokenize(source).unwrap();
    let b = tokenize(source).unwrap();
    assert_eq!(a.len(), b.len());
    for (x, y) in a.iter().zip(b.iter()) {
        assert_eq!(x.token, y.token);
        assert_eq!(x.span, y.span);
        assert_eq!(x.text, y.text);
    }
}

#[test]
fn compound_operators_use_one_character_of_lookahead() {
    let tokens = tokenize("-> == != <= >= :: .. - = < > : .").unwrap();
    assert_eq!(
        kinds(&tokens),
        vec![
            Token::Arrow,
            Token::Eq,
            Token::NotEq,
            Token::LtEq,
            Token::GtEq,
            Token::DoubleColon,
            Token::DotDot,
            Token::Minus,
            Token::Assign,
            Token::Lt,
            Token::Gt,
            Token::Colon,
            Token::Dot,
        ]
    );
}

#[test]
fn comments_and_whitespace_are_dropped() {
    let tokens = tokenize("a // line comment\n/* block\ncomment */ b\t\r\n").unwrap();
    assert_eq!(kinds(&tokens), vec![Token::Ident, Token::Ident]);
    assert_eq!(tokens[1].text, "b");
}

#[test]
fn numbers_ranges_and_floats() {
    let tokens = tokenize("0..3 2.5 7.").unwrap();
    assert_eq!(
        kinds(&tokens),
        vec![Token::IntLiteral, Token::DotDot, Token::IntLiteral, Token::FloatLiteral, Token::IntLiteral, Token::Dot]
    );
    assert_eq!(tokens[3].text, "2.5");
}

#[test]
fn keywords_types_and_println_macro() {
    let tokens = tokenize("fn let mut if else while for in return true false i32 f64 bool str println! println x_1").unwrap();
    assert_eq!(
        kinds(&tokens),
        vec![
            Token::Fn,
            Token::Let,
            Token::Mut,
            Token::If,
            Token::Else,
            Token::While,
            Token::For,
            Token::In,
            Token::Return,
            Token::True,
            Token::False,
            Token::I32,
            Token::F64,
            Token::Bool,
            Token::Str,
            Token::PrintlnMacro,
            Token::Ident,
            Token::Ident,
        ]
    );
    assert_eq!(tokens[15].text, "println!");
}

#[test]
fn string_literal_keeps_its_quotes_in_the_text() {
    let tokens = tokenize("\"i = {}\"").unwrap();
    assert_eq!(tokens.len(), 1);
    assert_eq!(tokens[0].token, Token::StringLiteral);
    assert_eq!(tokens[0].text, "\"i = {}\"");
}

#[test]
fn unexpected_character_is_a_lexer_error() {
    match tokenize("let x = 5 # 3;") {
        Err(CompilerError::LexerError { span, message }) => {
            assert_eq!(span.start, 10);
            assert_eq!(span.end, 11);
            assert_eq!(message, "unexpected character");
        }
        other => panic!("expected a lexer error, got {:?}", other),
    }
}

#[test]
fn unterminated_string_is_a_lexer_error() {
    match tokenize("let s = \"abc") {
        Err(CompilerError::LexerError { span, message }) => {
            assert_eq!(span.start, 8);
            assert_eq!(message, "unterminated string literal");
        }
        other => panic!("expected a lexer error, got {:?}", other),
    }
}

#[test]
fn unterminated_block_comment_is_a_lexer_error() {
    match tokenize("x /* never closed") {
        Err(CompilerError::LexerError { span, message }) => {
            assert_eq!(span.start, 2);
            assert_eq!(message, "unterminated block comment");
        }
        other => panic!("expected a lexer error, got {:?}", other),
    }
}

#[test]
fn bare_bang_is_a_lexer_error() {
    for source in ["!a", "2 ! 3", "let x = 5 !;", "!"].iter() {
        match tokenize(source) {
            Err(CompilerError::LexerError { message, .. }) => assert_eq!(message, "unexpected character"),
            other => panic!("expected a lexer error for {:?}, got {:?}", source, other),
        }
    }
    assert_eq!(kinds(&tokenize("a != b").unwrap()), vec![Token::Ident, Token::NotEq, Token::Ident]);
    assert_eq!(kinds(&tokenize("println!(\"!\")").unwrap()), vec![Token::PrintlnMacro, Token::LParen, Token::StringLiteral, Token::RParen]);
}

#[test]
fn i64_is_a_type_name() {
    assert_eq!(kinds(&tokenize("i64").unwrap()), vec![Token::I64]);
}

#[test]
fn lone_ampersand_is_a_lexer_error() {
    assert!(matches!(tokenize("a & b"), Err(CompilerError::LexerError { .. })));
    assert_eq!(kinds(&tokenize("a && b || c").unwrap()), vec![Token::Ident, Token::And, Token::Ident, Token::Or, Token::Ident]);
}

#[test]
fn empty_source_has_no_tokens() {
    assert_eq!(tokenize("").unwrap().len(), 0);
    assert_eq!(tokenize("  \n\t// only a comment").unwrap().len(), 0);
}
